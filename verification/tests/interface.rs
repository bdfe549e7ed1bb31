use base64::Engine;
use ghost_core::audio_control::{should_transmit, speaking_after_frame, AgcMode, NoiseSuppressionMode, INPUT_MODE_PTT, INPUT_MODE_VA};
use ghost_core::constants::MessageType;
use ghost_core::dto::{ChannelDto, ConfigDto, GroupDto, IdentityDto, KeybindConfig, MemberDto, MessageDto, PresenceInfo, VoiceStateEvent};
use ghost_core::identity::Identity;
use ghost_core::kinds::{ChannelKind, MemberRole, ServerKind};
use ghost_core::links::{invite_link, parse_hex_id, parse_id, relay_host, voice_ws_url};
use ghost_core::presence::OnlineStatus;
use ghost_core::records::{Channel, Member, Server};
use ghost_core::wire::ApplicationMessage;

#[test]
fn identity_dto_is_hex() {
    let id = Identity::from_seed([0x01; 32]).unwrap();
    let d = IdentityDto::from_identity(&id);
    assert_eq!(d.fingerprint, hex::encode(id.fingerprint));
    assert_eq!(d.fingerprint_short.len(), 16);
    assert_eq!(d.display_name, id.display_name);
}

#[test]
fn record_dtos() {
    let s = Server { server_id: [0xAB; 32], name: "n".into(), kind: ServerKind::Server, creator_fp: [0x01; 32], created_at: 3 };
    let g = GroupDto::from_group(&s, true);
    assert_eq!(g.group_id, "ab".repeat(32));
    assert!(g.has_unread);
    let c = Channel { channel_id: [0x0F; 32], server_id: [0xAB; 32], name: "v".into(), kind: ChannelKind::Voice, position: 2 };
    let cd = ChannelDto::from_channel(&c, 5);
    assert_eq!(cd.kind, "voice");
    assert_eq!(cd.channel_id, "0f".repeat(32));
    assert_eq!(cd.unread_count, 5);
    let m = Member {
        server_id: [0xAB; 32],
        fingerprint: [0x10; 32],
        display_name: "d".into(),
        role: MemberRole::Member,
        joined_at: 9,
        avatar_hash: None,
        avatar_key: None,
    };
    let md = MemberDto::from_member(&m);
    assert_eq!(md.role, "member");
    assert_eq!(md.fingerprint, "10".repeat(32));
}

#[test]
fn message_dto_decodes_lossily() {
    let msg = ApplicationMessage::new(MessageType::Text, [1; 32], [2; 32], 7, vec![], vec![b'o', b'k', 0xFF]).unwrap();
    let d = MessageDto::from_incoming(&msg, 8);
    assert_eq!(d.content, "ok\u{FFFD}");
    assert_eq!(d.message_type, 1);
    assert_eq!(d.received_at, 8);
    assert_eq!(d.message_id, hex::encode(msg.message_id));
}

#[test]
fn config_dto_defaults() {
    let d = ConfigDto::from_settings(None, Some("https://r".into()), None, None, None, Some("off".into()), None);
    assert_eq!(d.noise_suppression, "nnnoiseless");
    assert_eq!(d.agc, "off");
    assert_eq!(d.input_mode, "voice_activity");
    assert_eq!(d.relay_url.as_deref(), Some("https://r"));
    let e = ConfigDto::from_settings(None, None, None, None, Some("off".into()), Some("OFF".into()), Some("push_to_talk".into()));
    assert_eq!(e.noise_suppression, "off");
    assert_eq!(e.agc, "auto");
    assert_eq!(e.input_mode, "push_to_talk");
}

#[test]
fn keybinds() {
    let mut kb = KeybindConfig::default();
    assert!(kb.push_to_talk.is_none());
    kb.set("push_to_talk", Some("F13".into())).unwrap();
    assert_eq!(kb.to_dto().push_to_talk.as_deref(), Some("F13"));
    assert!(kb.set("mute", Some("F1".into())).is_err());
    assert_eq!(kb.push_to_talk.as_deref(), Some("F13"));
}

#[test]
fn presence_and_voice_defaults() {
    let p = PresenceInfo::default();
    assert_eq!(p.status, OnlineStatus::Online);
    assert!(p.status_message.is_none());
    let mut v = VoiceStateEvent::default();
    v.connected = true;
    v.muted = true;
    v.udp_port = Some(5);
    let r = v.reset();
    assert!(!r.connected && r.muted && !r.deafened && r.udp_port.is_none());
}

#[test]
fn audio_modes_and_transmission() {
    assert_eq!(NoiseSuppressionMode::from_u8(0), NoiseSuppressionMode::Off);
    assert_eq!(NoiseSuppressionMode::from_u8(7), NoiseSuppressionMode::Nnnoiseless);
    assert_eq!(AgcMode::from_u8(0), AgcMode::Off);
    assert_eq!(AgcMode::from_setting(&Some("off".into())), AgcMode::Off);
    assert_eq!(AgcMode::from_setting(&None), AgcMode::Auto);
    assert_eq!(NoiseSuppressionMode::from_setting(&Some("on".into())), NoiseSuppressionMode::Nnnoiseless);
    assert!(should_transmit(false, INPUT_MODE_VA, false));
    assert!(!should_transmit(true, INPUT_MODE_VA, true));
    assert!(!should_transmit(false, INPUT_MODE_PTT, false));
    assert!(should_transmit(false, INPUT_MODE_PTT, true));
}

#[test]
fn speaking_indicator_hangover() {
    assert_eq!(speaking_after_frame(INPUT_MODE_VA, true, 0), (15, true));
    assert_eq!(speaking_after_frame(INPUT_MODE_VA, false, 15), (14, true));
    assert_eq!(speaking_after_frame(INPUT_MODE_VA, false, 1), (0, false));
    assert_eq!(speaking_after_frame(INPUT_MODE_VA, false, 0), (0, false));
    assert_eq!(speaking_after_frame(INPUT_MODE_PTT, false, 3), (3, true));
}

#[test]
fn hex_ids() {
    assert_eq!(parse_hex_id(&"AB".repeat(32)), Some([0xAB; 32]));
    assert_eq!(parse_hex_id(&"ab".repeat(31)), None);
    assert_eq!(parse_hex_id("zz"), None);
}

#[test]
fn voice_and_invite_urls() {
    let id = [0x11u8; 32];
    let b64 = base64::engine::general_purpose::URL_SAFE_NO_PAD.encode(id);
    assert_eq!(voice_ws_url("https://relay.example", &hex::encode(id)).unwrap(), format!("wss://relay.example/voice/{b64}"));
    assert_eq!(voice_ws_url("http://h:1", &hex::encode(id)).unwrap(), format!("ws://h:1/voice/{b64}"));
    assert_eq!(voice_ws_url("https://r", "abc").unwrap_err(), "bad channel_id: Odd number of digits");
    assert!(voice_ws_url("https://r", "xyz").is_err());
    assert_eq!(relay_host("https://relay.example:8443/x").unwrap(), "relay.example");
    assert!(relay_host("not a url").is_err());
    let link = invite_link("https://relay.example", "t k").unwrap();
    assert_eq!(link, "ghost://join?relay=https%3A%2F%2Frelay.example&token=t+k");
}

#[test]
fn ids_from_the_user_interface() {
    assert_eq!(parse_id(&"0a".repeat(32)).unwrap(), [0x0A; 32]);
    assert_eq!(parse_id("0a0b").unwrap_err(), "invalid 32-byte id");
    assert_eq!(parse_id("0g").unwrap_err(), "Invalid character 'g' at position 1");
    assert_eq!(parse_id("abc").unwrap_err(), "Odd number of digits");
}
