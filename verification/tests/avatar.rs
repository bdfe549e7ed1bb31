use ghost_core::avatar::{avatar_data_url, avatar_mime, cached_avatar_is_current, open_avatar, seal_avatar, seal_new_avatar};

#[test]
fn avatar_seal_open_roundtrip() {
    let data = b"\x89PNG fake image bytes";
    let sealed = seal_new_avatar(data).unwrap();
    assert_eq!(sealed.blob.len(), 12 + data.len() + 16);
    assert_eq!(sealed.hash, *blake3::hash(&sealed.blob).as_bytes());
    assert_eq!(open_avatar(&sealed.key, &sealed.blob).unwrap(), data);
    let mut other = sealed.key;
    other[0] ^= 1;
    assert!(open_avatar(&other, &sealed.blob).is_none());
    assert!(open_avatar(&sealed.key, &sealed.blob[..27]).is_none());
}

#[test]
fn avatar_sealed_under_given_key() {
    let key = [9u8; 32];
    let a = seal_avatar(key, b"img").unwrap();
    assert_eq!(a.key, key);
    assert_eq!(open_avatar(&key, &a.blob).unwrap(), b"img");
    // Fresh nonces make each upload a new version.
    let b = seal_avatar(key, b"img").unwrap();
    assert_ne!(a.hash, b.hash);
}

#[test]
fn avatar_cache_hash_check() {
    let h = [3u8; 32];
    assert!(cached_avatar_is_current(&h, &h));
    assert!(!cached_avatar_is_current(&h[..31], &h));
    assert!(!cached_avatar_is_current(&[4u8; 32], &h));
}

#[test]
fn avatar_mime_sniffing() {
    assert_eq!(avatar_mime(b"GIF89a"), "image/gif");
    assert_eq!(avatar_mime(b"\x89PNG\r\n"), "image/png");
    assert_eq!(avatar_mime(&[0xFF, 0xD8, 0xFF]), "image/jpeg");
    assert_eq!(avatar_mime(b"RIFF....WEBP"), "image/webp");
    assert_eq!(avatar_mime(b"GI"), "image/webp");
    assert_eq!(avatar_mime(&[0xFF]), "image/webp");
}

#[test]
fn avatar_data_url_layout() {
    assert_eq!(avatar_data_url(b"GIF8"), "data:image/gif;base64,R0lGOA==");
    assert_eq!(avatar_data_url(b""), "data:image/webp;base64,");
}
