use ghost_core::audio_control::{INPUT_MODE_PTT, INPUT_MODE_VA};
use ghost_core::dto::{PresenceInfo, VoiceCommand};
use ghost_core::presence::OnlineStatus;
use ghost_core::sync_entries::{
    parse_sync_entries, read_mark_key, server_entry_key, SYNC_KEY_AGC, SYNC_KEY_DISPLAY_NAME, SYNC_KEY_INPUT_MODE, SYNC_KEY_NOISE_SUPPRESSION,
    SYNC_KEY_READ_PREFIX, SYNC_KEY_SERVER_ORDER, SYNC_KEY_SERVER_PREFIX, SYNC_KEY_STATUS, SYNC_KEY_STATUS_MESSAGE,
};

fn entry(key: &str, value: Option<&[u8]>) -> (String, Option<Vec<u8>>, u64) {
    (key.to_string(), value.map(|v| v.to_vec()), 1)
}

#[test]
fn empty_entries_change_nothing() {
    let s = parse_sync_entries(&[]);
    assert!(s.display_name.is_none() && s.status_message.is_none() && !s.server_order_changed);
    assert!(s.read_marks.is_empty() && s.server_entries.is_empty());
}

#[test]
fn later_entries_override_earlier_ones() {
    let entries = vec![
        entry(SYNC_KEY_DISPLAY_NAME, Some(b"old")),
        entry(SYNC_KEY_AGC, Some(b"on")),
        entry(SYNC_KEY_DISPLAY_NAME, Some(b"new")),
        entry(SYNC_KEY_DISPLAY_NAME, Some(&[0xFF, 0xFE])),
        entry(SYNC_KEY_DISPLAY_NAME, None),
        entry(SYNC_KEY_NOISE_SUPPRESSION, Some(b"rnnoise")),
        entry(SYNC_KEY_INPUT_MODE, Some(b"push_to_talk")),
        entry(SYNC_KEY_STATUS, Some(b"away")),
    ];
    let s = parse_sync_entries(&entries);
    assert_eq!(s.display_name.as_deref(), Some("new"));
    assert_eq!(s.agc.as_deref(), Some("on"));
    assert_eq!(s.noise_suppression.as_deref(), Some("rnnoise"));
    assert_eq!(s.input_mode.as_deref(), Some("push_to_talk"));
    assert_eq!(s.status.as_deref(), Some("away"));
    assert!(s.status_message.is_none());
    assert!(!s.server_order_changed);
}

#[test]
fn status_message_removal_clears_it() {
    let s = parse_sync_entries(&[entry(SYNC_KEY_STATUS_MESSAGE, Some(b"lunch")), entry(SYNC_KEY_STATUS_MESSAGE, None)]);
    assert_eq!(s.status_message, Some(None));
    let s = parse_sync_entries(&[entry(SYNC_KEY_STATUS_MESSAGE, None), entry(SYNC_KEY_STATUS_MESSAGE, Some(b"back"))]);
    assert_eq!(s.status_message, Some(Some("back".to_string())));
}

#[test]
fn read_marks_and_servers_are_collected() {
    let cid = "0a".repeat(32);
    let sid = "0B".repeat(32);
    let entries = vec![
        entry(&format!("{SYNC_KEY_READ_PREFIX}{cid}"), Some(&1_700_000_000_123u64.to_be_bytes())),
        entry(&format!("{SYNC_KEY_READ_PREFIX}{cid}"), Some(&[1, 2, 3])),
        entry(&format!("{SYNC_KEY_READ_PREFIX}xyz"), Some(&7u64.to_be_bytes())),
        entry(&format!("{SYNC_KEY_SERVER_PREFIX}{sid}"), Some(b"meta")),
        entry(&format!("{SYNC_KEY_SERVER_PREFIX}{sid}"), None),
        entry(SYNC_KEY_SERVER_ORDER, None),
        entry("something_else", Some(b"x")),
    ];
    let s = parse_sync_entries(&entries);
    assert_eq!(s.read_marks, vec![([0x0A; 32], 1_700_000_000_123)]);
    assert_eq!(s.server_entries, vec![([0x0B; 32], b"meta".to_vec())]);
    assert!(s.server_order_changed);
}

#[test]
fn synced_settings_drive_voice_presence_and_events() {
    let entries = vec![
        entry(SYNC_KEY_NOISE_SUPPRESSION, Some(b"off")),
        entry(SYNC_KEY_AGC, Some(b"auto")),
        entry(SYNC_KEY_INPUT_MODE, Some(b"push_to_talk")),
        entry(SYNC_KEY_STATUS, Some(b"invisible")),
    ];
    let s = parse_sync_entries(&entries);
    let cmds = s.voice_commands();
    assert_eq!(cmds.len(), 3);
    assert!(matches!(cmds[0], VoiceCommand::SetNoiseSuppression(0)));
    assert!(matches!(cmds[1], VoiceCommand::SetAgc(1)));
    assert!(matches!(cmds[2], VoiceCommand::SetInputMode(m) if m == INPUT_MODE_PTT));
    assert_eq!(
        s.events(),
        vec![("sync-pref", "noise_suppression"), ("sync-pref", "agc"), ("sync-pref", "input_mode"), ("sync-status", "")]
    );
    let mut p = PresenceInfo::default();
    p.status_message = Some("kept".to_string());
    assert!(s.apply_to_presence(&mut p));
    assert_eq!(p.status, OnlineStatus::Invisible);
    assert_eq!(p.status_message.as_deref(), Some("kept"));

    let s = parse_sync_entries(&[entry(SYNC_KEY_INPUT_MODE, Some(b"voice")), entry(SYNC_KEY_STATUS_MESSAGE, None)]);
    assert!(matches!(s.voice_commands()[0], VoiceCommand::SetInputMode(m) if m == INPUT_MODE_VA));
    assert!(s.apply_to_presence(&mut p));
    assert_eq!(p.status, OnlineStatus::Invisible);
    assert!(p.status_message.is_none());
    let s = parse_sync_entries(&[entry(SYNC_KEY_SERVER_ORDER, Some(b"x")), entry(SYNC_KEY_STATUS, Some(b"busy"))]);
    assert_eq!(s.events(), vec![("sync-server-order", ""), ("sync-status", "")]);
    assert!(s.apply_to_presence(&mut p));
    assert_eq!(p.status, OnlineStatus::Online);
}

#[test]
fn written_keys_read_back() {
    let cid = [0x3Cu8; 32];
    let key = read_mark_key(&hex::encode(cid));
    assert_eq!(key, format!("{SYNC_KEY_READ_PREFIX}{}", "3c".repeat(32)));
    let sid = [0xD2u8; 32];
    let skey = server_entry_key(&sid);
    assert_eq!(skey, format!("{SYNC_KEY_SERVER_PREFIX}{}", "d2".repeat(32)));
    let s = parse_sync_entries(&[
        (key, Some(99u64.to_be_bytes().to_vec()), 5),
        (skey, Some(b"meta".to_vec()), 6),
    ]);
    assert_eq!(s.read_marks, vec![(cid, 99)]);
    assert_eq!(s.server_entries, vec![(sid, b"meta".to_vec())]);
}
