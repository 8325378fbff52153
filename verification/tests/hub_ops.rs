use voice_relay::hub::Hub;
use voice_relay::wire::{chat_text, invite_text, join_text, leave_text, user_list_text};

fn hub_of(n: usize) -> Hub {
    let mut hub = Hub::new();
    for _ in 0..n {
        hub.register().unwrap();
    }
    hub
}

#[test]
fn new_hub_is_empty() {
    let hub = Hub::new();
    assert!(hub.roster_snapshot().is_empty());
    assert!(!hub.is_registered(0));
    assert!(hub.broadcast_user_list().is_empty());
}

#[test]
fn ids_are_handed_out_in_order_and_not_again() {
    let mut hub = Hub::new();
    let (a, _) = hub.register().unwrap();
    let (b, _) = hub.register().unwrap();
    hub.unregister(a);
    let (c, _) = hub.register().unwrap();
    assert_eq!((a, b, c), (0, 1, 2));
    assert_eq!(hub.roster_snapshot(), vec![1, 2]);
}

#[test]
fn roster_follows_every_connect_and_disconnect() {
    let mut hub = Hub::new();
    let mut expected: Vec<u64> = Vec::new();
    for _ in 0..4 {
        let (id, deliveries) = hub.register().unwrap();
        expected.push(id);
        let mut to: Vec<u64> = deliveries.iter().map(|d| d.to).collect();
        to.sort();
        assert_eq!(to, expected);
        for d in &deliveries {
            assert_eq!(d.text, user_list_text(&expected));
        }
    }
    let (_, updates) = hub.unregister(2);
    expected.retain(|id| *id != 2);
    let mut to: Vec<u64> = updates.iter().map(|d| d.to).collect();
    to.sort();
    assert_eq!(to, expected);
    assert_eq!(updates[0].text, "{\"type\":\"userList\",\"users\":[0,1,3]}");
}

#[test]
fn unregister_twice_does_nothing_the_second_time() {
    let mut hub = hub_of(2);
    let (_, first) = hub.unregister(0);
    assert_eq!(first.len(), 1);
    let (events, updates) = hub.unregister(0);
    assert!(events.is_empty());
    assert!(updates.is_empty());
    assert_eq!(hub.roster_snapshot(), vec![1]);
}

#[test]
fn unregister_of_unknown_id_does_nothing() {
    let mut hub = hub_of(2);
    let (events, updates) = hub.unregister(17);
    assert!(events.is_empty());
    assert!(updates.is_empty());
    assert_eq!(hub.roster_snapshot(), vec![0, 1]);
}

#[test]
fn join_then_leave_alone_leaves_no_room() {
    let mut hub = hub_of(2);
    assert!(hub.join(0, "r").is_empty());
    assert!(hub.room_exists("r"));
    assert!(hub.leave(0, "r").is_empty());
    assert!(!hub.room_exists("r"));
    assert_eq!(hub.current_room(0), None);
    assert_eq!(hub.current_room(1), None);
    assert_eq!(hub.roster_snapshot(), vec![0, 1]);
}

#[test]
fn joiner_and_leaver_get_no_event_about_themselves() {
    let mut hub = hub_of(3);
    hub.join(0, "r");
    hub.join(1, "r");
    let joined = hub.join(2, "r");
    let mut to: Vec<u64> = joined.iter().map(|d| d.to).collect();
    to.sort();
    assert_eq!(to, vec![0, 1]);
    let left = hub.leave(2, "r");
    let mut to: Vec<u64> = left.iter().map(|d| d.to).collect();
    to.sort();
    assert_eq!(to, vec![0, 1]);
    assert_eq!(left[0].text, leave_text(2, "r"));
}

#[test]
fn joining_another_room_moves_the_client() {
    let mut hub = hub_of(2);
    hub.join(0, "r1");
    hub.join(0, "r2");
    assert_eq!(hub.current_room(0), Some("r2".to_string()));
    assert!(!hub.room_exists("r1"));
    assert_eq!(hub.room_participants("r2"), vec![0]);
}

#[test]
fn disconnect_from_shared_room_tells_the_other_only() {
    let mut hub = hub_of(3);
    hub.join(0, "r");
    hub.join(1, "r");
    let (events, updates) = hub.unregister(0);
    assert_eq!(events.len(), 1);
    assert_eq!(events[0].to, 1);
    assert_eq!(events[0].text, leave_text(0, "r"));
    assert!(hub.room_exists("r"));
    assert_eq!(hub.room_participants("r"), vec![1]);
    assert!(!hub.is_registered(0));
    let mut to: Vec<u64> = updates.iter().map(|d| d.to).collect();
    to.sort();
    assert_eq!(to, vec![1, 2]);
}

#[test]
fn cleanup_without_room_does_nothing() {
    let mut hub = hub_of(2);
    assert!(hub.cleanup_on_disconnect(0).is_empty());
    assert!(hub.cleanup_on_disconnect(9).is_empty());
    assert_eq!(hub.roster_snapshot(), vec![0, 1]);
}

#[test]
fn cleanup_takes_the_client_out_of_its_room() {
    let mut hub = hub_of(2);
    hub.join(0, "r");
    hub.join(1, "r");
    let events = hub.cleanup_on_disconnect(1);
    assert_eq!(events.len(), 1);
    assert_eq!(events[0].to, 0);
    assert_eq!(events[0].text, "{\"roomId\":\"r\",\"type\":\"leave-voice\",\"userId\":1}");
    assert_eq!(hub.current_room(1), None);
    assert!(hub.is_registered(1));
}

#[test]
fn broadcast_message_to_all_leaves_out_the_excluded() {
    let hub = hub_of(3);
    let all = hub.broadcast_message_to_all("x", None);
    assert_eq!(all.iter().map(|d| d.to).collect::<Vec<u64>>(), vec![0, 1, 2]);
    let some = hub.broadcast_message_to_all("x", Some(1));
    assert_eq!(some.iter().map(|d| d.to).collect::<Vec<u64>>(), vec![0, 2]);
    assert!(some.iter().all(|d| d.text == "x"));
}

#[test]
fn broadcast_to_room_reaches_its_participants() {
    let mut hub = hub_of(4);
    hub.join(0, "a");
    hub.join(1, "b");
    hub.join(3, "a");
    let to_a = hub.broadcast_to_room("a", "x", None);
    assert_eq!(to_a.iter().map(|d| d.to).collect::<Vec<u64>>(), vec![0, 3]);
    let to_a = hub.broadcast_to_room("a", "x", Some(0));
    assert_eq!(to_a.iter().map(|d| d.to).collect::<Vec<u64>>(), vec![3]);
    assert!(hub.broadcast_to_room("c", "x", None).is_empty());
}

#[test]
fn unicast_reaches_the_target_or_nobody() {
    let hub = hub_of(2);
    let one = hub.unicast(1, "x");
    assert_eq!(one.len(), 1);
    assert_eq!(one[0].to, 1);
    assert_eq!(one[0].text, "x");
    assert!(hub.unicast(5, "x").is_empty());
}

#[test]
fn message_texts_are_exact() {
    assert_eq!(chat_text(3, "a\"b"), "{\"message\":\"a\\\"b\",\"type\":\"chat\",\"userId\":3}");
    assert_eq!(join_text(1, "r1"), "{\"roomId\":\"r1\",\"type\":\"join-voice\",\"userId\":1}");
    assert_eq!(leave_text(1, "r1"), "{\"roomId\":\"r1\",\"type\":\"leave-voice\",\"userId\":1}");
    assert_eq!(invite_text(7, "r"), "{\"roomId\":\"r\",\"type\":\"voice-invite\",\"userId\":7}");
    assert_eq!(user_list_text(&vec![]), "{\"type\":\"userList\",\"users\":[]}");
    assert_eq!(user_list_text(&vec![2, 0]), "{\"type\":\"userList\",\"users\":[2,0]}");
}

#[test]
fn rooms_always_match_the_clients_records() {
    let rooms = ["a", "b", "c"];
    let mut hub = hub_of(5);
    let mut step: u64 = 7;
    for _ in 0..200 {
        step = step.wrapping_mul(6364136223846793005).wrapping_add(1442695040888963407);
        let id = (step >> 33) % 6;
        let room = rooms[((step >> 40) % 3) as usize];
        match (step >> 50) % 4 {
            0 => {
                hub.join(id, room);
            }
            1 => {
                hub.leave(id, room);
            }
            2 => {
                hub.unregister(id);
            }
            _ => {
                hub.register();
            }
        }
        let roster = hub.roster_snapshot();
        for r in rooms {
            let members = hub.room_participants(r);
            assert_eq!(hub.room_exists(r), !members.is_empty());
            for m in &members {
                assert!(roster.contains(m));
                assert_eq!(hub.current_room(*m), Some(r.to_string()));
            }
            for c in &roster {
                assert_eq!(hub.current_room(*c) == Some(r.to_string()), members.contains(c));
            }
        }
        let mut sorted = roster.clone();
        sorted.sort();
        sorted.dedup();
        assert_eq!(sorted.len(), roster.len());
    }
}
