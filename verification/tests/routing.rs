use voice_relay::hub::Hub;
use voice_relay::router::{handle_message, route, Command};

fn hub_of(n: usize) -> Hub {
    let mut hub = Hub::new();
    for _ in 0..n {
        hub.register().unwrap();
    }
    hub
}

fn text(s: &str) -> Option<String> {
    Some(s.to_string())
}

#[test]
fn parse_reads_each_kind() {
    assert!(matches!(
        Command::parse("{\"type\":\"chat\",\"message\":\"hi\"}"),
        Command::Chat { message } if message == "hi"
    ));
    assert!(matches!(
        Command::parse("{\"type\":\"join-voice\",\"roomId\":\"r1\"}"),
        Command::JoinVoice { room_id } if room_id == "r1"
    ));
    assert!(matches!(
        Command::parse("{\"type\":\"leave-voice\",\"roomId\":\"r1\"}"),
        Command::LeaveVoice { room_id } if room_id == "r1"
    ));
    assert!(matches!(
        Command::parse("{\"type\":\"voice-invite\",\"targetUserId\":4,\"roomId\":\"r1\"}"),
        Command::VoiceInvite { target: 4, room_id } if room_id == "r1"
    ));
    assert!(matches!(
        Command::parse("{\"type\":\"offer\",\"targetUserId\":2,\"sdp\":\"x\"}"),
        Command::Relay { target: 2 }
    ));
    assert!(matches!(
        Command::parse("{\"type\":\"answer\",\"targetUserId\":0}"),
        Command::Relay { target: 0 }
    ));
    assert!(matches!(
        Command::parse("{\"type\":\"ice-candidate\",\"targetUserId\":9}"),
        Command::Relay { target: 9 }
    ));
}

#[test]
fn parse_ignores_what_is_not_of_the_protocol() {
    assert!(matches!(Command::parse("not json"), Command::Ignore));
    assert!(matches!(Command::parse(""), Command::Ignore));
    assert!(matches!(Command::parse("[1,2]"), Command::Ignore));
    assert!(matches!(Command::parse("{}"), Command::Ignore));
    assert!(matches!(Command::parse("{\"type\":5}"), Command::Ignore));
    assert!(matches!(Command::parse("{\"type\":\"dance\"}"), Command::Ignore));
    assert!(matches!(Command::parse("{\"type\":\"chat\"}"), Command::Ignore));
    assert!(matches!(Command::parse("{\"type\":\"join-voice\"}"), Command::Ignore));
    assert!(matches!(Command::parse("{\"type\":\"join-voice\",\"roomId\":3}"), Command::Ignore));
    assert!(matches!(Command::parse("{\"type\":\"offer\"}"), Command::Ignore));
    assert!(matches!(
        Command::parse("{\"type\":\"offer\",\"targetUserId\":-1}"),
        Command::Ignore
    ));
    assert!(matches!(
        Command::parse("{\"type\":\"offer\",\"targetUserId\":\"1\"}"),
        Command::Ignore
    ));
    assert!(matches!(
        Command::parse("{\"type\":\"voice-invite\",\"targetUserId\":1}"),
        Command::Ignore
    ));
    assert!(matches!(
        Command::parse("{\"type\":\"voice-invite\",\"roomId\":\"r\"}"),
        Command::Ignore
    ));
}

#[test]
fn from_fields_needs_the_members_of_the_kind() {
    assert!(matches!(
        Command::from_fields(text("chat"), text("m"), None, None),
        Command::Chat { message } if message == "m"
    ));
    assert!(matches!(Command::from_fields(text("chat"), None, text("r"), Some(1)), Command::Ignore));
    assert!(matches!(Command::from_fields(None, text("m"), text("r"), Some(1)), Command::Ignore));
    assert!(matches!(
        Command::from_fields(text("leave-voice"), None, text("r"), None),
        Command::LeaveVoice { room_id } if room_id == "r"
    ));
    assert!(matches!(
        Command::from_fields(text("voice-invite"), None, text("r"), Some(3)),
        Command::VoiceInvite { target: 3, room_id } if room_id == "r"
    ));
    assert!(matches!(
        Command::from_fields(text("answer"), None, None, Some(3)),
        Command::Relay { target: 3 }
    ));
    assert!(matches!(Command::from_fields(text("answer"), None, None, None), Command::Ignore));
    assert!(matches!(Command::from_fields(text("Chat"), text("m"), None, None), Command::Ignore));
}

#[test]
fn chat_reaches_every_other_client_once() {
    let mut hub = hub_of(4);
    let deliveries = handle_message(&mut hub, 2, "{\"type\":\"chat\",\"message\":\"yo\"}");
    let mut to: Vec<u64> = deliveries.iter().map(|d| d.to).collect();
    to.sort();
    assert_eq!(to, vec![0, 1, 3]);
    for d in &deliveries {
        assert_eq!(d.text, "{\"message\":\"yo\",\"type\":\"chat\",\"userId\":2}");
    }
}

#[test]
fn relay_hands_on_the_very_text() {
    let mut hub = hub_of(3);
    for kind in ["offer", "answer", "ice-candidate"] {
        let raw = format!(
            "{{ \"type\" : \"{}\",  \"targetUserId\":1, \"sdp\": {{\"b\":1.50, \"a\":[ ]}} }}",
            kind
        );
        let deliveries = handle_message(&mut hub, 0, &raw);
        assert_eq!(deliveries.len(), 1);
        assert_eq!(deliveries[0].to, 1);
        assert_eq!(deliveries[0].text, raw);
    }
}

#[test]
fn relay_to_missing_target_has_no_effect() {
    let mut hub = hub_of(2);
    hub.join(0, "r");
    hub.unregister(1);
    let gone = handle_message(&mut hub, 0, "{\"type\":\"offer\",\"targetUserId\":1}");
    assert!(gone.is_empty());
    let never = handle_message(&mut hub, 0, "{\"type\":\"answer\",\"targetUserId\":77}");
    assert!(never.is_empty());
    let invite =
        handle_message(&mut hub, 0, "{\"type\":\"voice-invite\",\"targetUserId\":77,\"roomId\":\"r\"}");
    assert!(invite.is_empty());
    assert_eq!(hub.roster_snapshot(), vec![0]);
    assert_eq!(hub.current_room(0), Some("r".to_string()));
}

#[test]
fn invite_goes_to_the_target_only() {
    let mut hub = hub_of(3);
    let deliveries =
        handle_message(&mut hub, 0, "{\"type\":\"voice-invite\",\"targetUserId\":2,\"roomId\":\"r9\"}");
    assert_eq!(deliveries.len(), 1);
    assert_eq!(deliveries[0].to, 2);
    assert_eq!(deliveries[0].text, "{\"roomId\":\"r9\",\"type\":\"voice-invite\",\"userId\":0}");
    assert!(!hub.room_exists("r9"));
}

#[test]
fn bad_frames_are_dropped() {
    let mut hub = hub_of(2);
    hub.join(1, "r");
    for raw in ["", "garbage", "{\"type\":\"nope\"}", "{\"message\":\"hi\"}", "42", "{\"type\":null}"] {
        assert!(handle_message(&mut hub, 0, raw).is_empty());
    }
    assert_eq!(hub.roster_snapshot(), vec![0, 1]);
    assert_eq!(hub.current_room(1), Some("r".to_string()));
    assert_eq!(hub.current_room(0), None);
}

#[test]
fn route_ignores_the_raw_text_but_for_a_relay() {
    let mut hub = hub_of(2);
    let chat = route(&mut hub, 0, &Command::Chat { message: "m".to_string() }, "raw");
    assert_eq!(chat.len(), 1);
    assert_eq!(chat[0].text, "{\"message\":\"m\",\"type\":\"chat\",\"userId\":0}");
    let relay = route(&mut hub, 0, &Command::Relay { target: 1 }, "raw");
    assert_eq!(relay[0].text, "raw");
    assert!(route(&mut hub, 0, &Command::Ignore, "raw").is_empty());
}
