use signaling::identity::IdCounter;
use signaling::registry::Registry;
use signaling::room::{create_bounded_room, create_room, Delivery, Room};
use signaling::router::{handle_frame, manage_message, route_message, Frame, RouteError};
use signaling::wire::{id_text, new_user_message, parse_user_id, status_message, user_left_message};
use std::sync::mpsc;

fn pairs(d: &[Delivery]) -> Vec<(u8, String)> {
    d.iter().map(|x| (x.to, x.text.clone())).collect()
}

fn room_of(ids: &[u8]) -> Room<u32> {
    let mut room = create_room::<u32>();
    for &id in ids {
        room.join(id, id as u32 * 10);
    }
    room
}

fn field(text: &str, key: &str) -> serde_json::Value {
    let v: serde_json::Value = serde_json::from_str(text).unwrap();
    v.get(key).cloned().unwrap()
}

#[test]
fn decimal_ids() {
    assert_eq!(id_text(0), "0");
    assert_eq!(id_text(7), "7");
    assert_eq!(id_text(42), "42");
    assert_eq!(id_text(255), "255");
}

#[test]
fn parses_user_ids_like_u8_from_str() {
    for s in ["0", "2", "+7", "007", "255", "256", "", "+", "a1", "-1", "1 ", "1000"] {
        assert_eq!(parse_user_id(s), s.parse::<u8>().ok(), "{s}");
    }
    assert_eq!(parse_user_id("2"), Some(2));
    assert_eq!(parse_user_id("9"), Some(9));
}

#[test]
fn system_messages_are_json() {
    let left = user_left_message(2);
    assert_eq!(left, "{\"id\":2,\"type\":\"user-left\"}");
    assert_eq!(field(&left, "id"), serde_json::Value::from(2));
    assert_eq!(field(&left, "type"), serde_json::Value::from("user-left"));
    let joined = new_user_message(13);
    assert_eq!(joined, "{\"id\":13,\"type\":\"new-user\"}");
    let status = status_message(3, &vec![1, 2, 3]);
    assert_eq!(status, "{\"myId\":3,\"type\":\"room-status\",\"users\":[1,2,3]}");
    assert_eq!(field(&status, "users"), serde_json::Value::from(vec![1, 2, 3]));
    assert_eq!(status_message(1, &vec![]), "{\"myId\":1,\"type\":\"room-status\",\"users\":[]}");
}

#[test]
fn join_sends_status_then_announces() {
    let mut room = create_room::<u32>();
    let first = room.join(1, 10);
    assert_eq!(pairs(&first), vec![(1, status_message(1, &vec![1]))]);
    let second = room.join(2, 20);
    assert_eq!(
        pairs(&second),
        vec![(2, status_message(2, &vec![1, 2])), (1, new_user_message(2))]
    );
    assert_eq!(room.member_ids(), vec![1, 2]);
    assert_eq!(room.sender(2), Some(&20));
    assert_eq!(room.sender(5), None);
}

#[test]
fn rejoining_id_replaces_its_channel() {
    let mut room = room_of(&[1, 2]);
    room.join(1, 99);
    assert_eq!(room.member_ids(), vec![2, 1]);
    assert_eq!(room.sender(1), Some(&99));
}

#[test]
fn broadcast_skips_its_sender() {
    let mut room = room_of(&[1, 2, 3]);
    let text = "{\"type\":\"offer\",\"sdp\":\"x\"}".to_string();
    let d = route_message(&mut room, 1, text.clone(), Some("offer".to_string()), None).unwrap();
    assert_eq!(pairs(&d), vec![(2, text.clone()), (3, text)]);
    let join = room.join(4, 40);
    assert!(join.iter().all(|x| x.to != 4 || x.text != new_user_message(4)));
}

#[test]
fn unicast_reaches_only_its_recipient() {
    let mut room = room_of(&[1, 2, 3]);
    let text = "{\"to\":\"2\",\"type\":\"answer\"}".to_string();
    let d = manage_message(&mut room, 1, text.clone()).unwrap();
    assert_eq!(pairs(&d), vec![(2, text)]);
    let missing = "{\"to\":\"9\",\"type\":\"answer\"}".to_string();
    assert_eq!(manage_message(&mut room, 1, missing).err(), Some(RouteError::NoRecipient));
    assert!(!RouteError::NoRecipient.is_fatal());
    assert_eq!(room.member_ids(), vec![1, 2, 3]);
    let bad = "{\"to\":\"two\"}".to_string();
    assert_eq!(manage_message(&mut room, 1, bad).err(), Some(RouteError::NoRecipient));
}

#[test]
fn malformed_and_non_text_frames() {
    let mut room = room_of(&[1, 2]);
    let r = manage_message(&mut room, 1, "not json".to_string());
    assert_eq!(r.err(), Some(RouteError::Malformed));
    assert!(RouteError::Malformed.is_fatal());
    assert_eq!(handle_frame(&mut room, 1, Frame::Pong).unwrap().len(), 0);
    assert_eq!(handle_frame(&mut room, 1, Frame::Other).err(), Some(RouteError::NonText));
    assert!(RouteError::NonText.is_fatal());
    let text = "{\"type\":\"chat\",\"msg\":\"hi\"}".to_string();
    let d = handle_frame(&mut room, 1, Frame::Text(text.clone())).unwrap();
    assert_eq!(pairs(&d), vec![(2, text)]);
    assert_eq!(room.history_len(), 1);
}

#[test]
fn non_string_to_is_a_broadcast() {
    let mut room = room_of(&[1, 2, 3]);
    let text = "{\"to\":2,\"type\":\"offer\"}".to_string();
    let d = manage_message(&mut room, 3, text.clone()).unwrap();
    assert_eq!(pairs(&d), vec![(1, text.clone()), (2, text)]);
}

#[test]
fn newcomer_gets_history_in_order() {
    let mut room = room_of(&[1, 2]);
    let a = "{\"type\":\"chat\",\"msg\":\"a\"}".to_string();
    let b = "{\"type\":\"playlist-new-media\",\"url\":\"b\"}".to_string();
    let c = "{\"type\":\"user-identified\",\"name\":\"c\"}".to_string();
    manage_message(&mut room, 1, a.clone()).unwrap();
    manage_message(&mut room, 2, b.clone()).unwrap();
    manage_message(&mut room, 1, c.clone()).unwrap();
    let d = room.join(3, 30);
    assert_eq!(
        pairs(&d),
        vec![
            (3, status_message(3, &vec![1, 2, 3])),
            (3, a),
            (3, b),
            (3, c),
            (1, new_user_message(3)),
            (2, new_user_message(3)),
        ]
    );
    let later = "{\"type\":\"chat\",\"msg\":\"later\"}".to_string();
    let sent = manage_message(&mut room, 1, later.clone()).unwrap();
    assert_eq!(sent.iter().filter(|x| x.to == 3 && x.text == later).count(), 1);
}

#[test]
fn only_durable_types_are_replayed() {
    let mut room = room_of(&[1, 2]);
    let chat = "{\"type\":\"chat\",\"msg\":\"hello\"}".to_string();
    let ping = "{\"type\":\"ping-check\"}".to_string();
    let routed = manage_message(&mut room, 1, ping.clone()).unwrap();
    assert_eq!(pairs(&routed), vec![(2, ping.clone())]);
    manage_message(&mut room, 1, chat.clone()).unwrap();
    let unsent = "{\"type\":\"chat\",\"to\":\"9\"}".to_string();
    assert_eq!(manage_message(&mut room, 1, unsent.clone()).err(), Some(RouteError::NoRecipient));
    let d = room.join(3, 30);
    let replay: Vec<String> =
        d.iter().filter(|x| x.to == 3).skip(1).map(|x| x.text.clone()).collect();
    assert_eq!(replay, vec![chat, unsent]);
}

#[test]
fn departure_is_announced_once() {
    let mut room = room_of(&[1, 2, 3]);
    let d = room.leave(2);
    assert_eq!(pairs(&d), vec![(1, user_left_message(2)), (3, user_left_message(2))]);
    assert_eq!(room.member_ids(), vec![1, 3]);
    let status = room.join(4, 40);
    assert_eq!(status[0].text, status_message(4, &vec![1, 3, 4]));
    assert!(room.leave(9).len() == 3);
}

#[test]
fn broken_channel_does_not_stop_a_broadcast() {
    let mut room: Room<mpsc::Sender<String>> = create_room();
    let mut rx = Vec::new();
    for id in 1..=4u8 {
        let (tx, r) = mpsc::channel();
        room.join(id, tx);
        rx.push(r);
    }
    let broken = rx.remove(1);
    drop(broken);
    let text = "{\"type\":\"candidate\"}".to_string();
    let d = manage_message(&mut room, 1, text.clone()).unwrap();
    let mut failures = 0;
    for x in d {
        if room.sender(x.to).unwrap().send(x.text).is_err() {
            failures += 1;
        }
    }
    assert_eq!(failures, 1);
    for r in &rx[1..] {
        let got: Vec<String> = r.try_iter().collect();
        assert_eq!(got.last(), Some(&text));
    }
}

#[test]
fn each_recipient_sees_its_order() {
    let mut room: Room<mpsc::Sender<String>> = create_room();
    let mut rx = Vec::new();
    for id in 1..=3u8 {
        let (tx, r) = mpsc::channel();
        let plan = room.join(id, tx);
        for x in plan {
            room.sender(x.to).unwrap().send(x.text).unwrap();
        }
        rx.push(r);
    }
    let texts: Vec<String> = (0..5).map(|k| format!("{{\"type\":\"n\",\"k\":{k}}}")).collect();
    for (k, t) in texts.iter().enumerate() {
        let from = if k % 2 == 0 { 1 } else { 2 };
        for x in manage_message(&mut room, from, t.clone()).unwrap() {
            room.sender(x.to).unwrap().send(x.text).unwrap();
        }
    }
    let at_three: Vec<String> = rx[2].try_iter().skip(1).collect();
    assert_eq!(at_three, texts);
}

#[test]
fn one_room_per_identifier() {
    let mut reg: Registry<u32> = Registry::new();
    let a = reg.resolve_or_create("lobby".to_string(), 1);
    let b = reg.resolve_or_create("lobby".to_string(), 2);
    assert_eq!(a, b);
    assert_eq!(*reg.room(a), 1);
    assert_eq!(reg.len(), 1);
    let c = reg.resolve_or_create("Lobby".to_string(), 3);
    assert_ne!(a, c);
    assert_eq!(*reg.room(c), 3);
    assert_eq!(reg.len(), 2);
}

#[test]
fn ids_count_up_and_wrap() {
    let mut ids = IdCounter::new();
    assert_eq!(ids.assign(), 1);
    assert_eq!(ids.assign(), 2);
    for _ in 0..252 {
        ids.assign();
    }
    assert_eq!(ids.assign(), 255);
    assert_eq!(ids.assign(), 0);
    assert_eq!(ids.assign(), 1);
}

#[test]
fn bounded_history_keeps_the_latest() {
    let mut room: Room<u32> = create_bounded_room(2);
    room.join(1, 10);
    let texts: Vec<String> =
        (0..4).map(|k| format!("{{\"type\":\"chat\",\"k\":{k}}}")).collect();
    for t in &texts {
        manage_message(&mut room, 1, t.clone()).unwrap();
        assert!(room.history_len() <= 2);
    }
    let d = room.join(2, 20);
    let replay: Vec<String> =
        d.iter().filter(|x| x.to == 2).skip(1).map(|x| x.text.clone()).collect();
    assert_eq!(replay, texts[2..].to_vec());
    let mut none: Room<u32> = create_bounded_room(0);
    none.join(1, 10);
    manage_message(&mut none, 1, texts[0].clone()).unwrap();
    assert_eq!(none.history_len(), 0);
}

#[test]
fn empty_room_can_be_evicted() {
    let mut reg: Registry<u32> = Registry::new();
    reg.resolve_or_create("a".to_string(), 1);
    reg.resolve_or_create("b".to_string(), 2);
    assert_eq!(reg.remove("a"), Some(1));
    assert_eq!(reg.remove("a"), None);
    assert_eq!(reg.len(), 1);
    let i = reg.resolve_or_create("a".to_string(), 3);
    assert_eq!(*reg.room(i), 3);
    let mut room = room_of(&[1]);
    assert!(!room.is_empty());
    room.leave(1);
    assert!(room.is_empty());
}
