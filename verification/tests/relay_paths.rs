use ghost_core::relay_paths::{account_path, avatar_path, consistency_proof_path, idlog_path, invite_step_path, server_info_path};

#[test]
fn mailbox_resource_paths() {
    let mb = [0xFB; 32];
    let b64 = "-_v7-_v7-_v7-_v7-_v7-_v7-_v7-_v7-_v7-_v7-_s";
    assert_eq!(server_info_path(&mb), format!("/box/{b64}/server_info"));
    assert_eq!(avatar_path(&mb, &[0xAB; 32]), format!("/box/{b64}/avatar/{}", "ab".repeat(32)));
}

#[test]
fn account_and_invite_paths() {
    let fp = [0x0C; 32];
    let hex = "0c".repeat(32);
    assert_eq!(account_path("/pair/", &fp, "/respond"), format!("/pair/{hex}/respond"));
    assert_eq!(account_path("/recovery/", &fp, ""), format!("/recovery/{hex}"));
    assert_eq!(idlog_path(&fp, 0), format!("/idlog/{hex}"));
    assert_eq!(idlog_path(&fp, 1234567), format!("/idlog/{hex}?after_seq=1234567"));
    assert_eq!(invite_step_path("tok", "join"), "/invite/tok/join");
}

#[test]
fn consistency_proof_query() {
    assert_eq!(consistency_proof_path(0, 18446744073709551615), "/kt/consistency-proof?from=0&to=18446744073709551615");
    assert_eq!(consistency_proof_path(10, 209), "/kt/consistency-proof?from=10&to=209");
}
