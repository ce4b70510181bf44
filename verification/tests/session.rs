use bytes::Bytes;
use futures::sync::mpsc;
use futures::Stream;
use rustler_live_view_toy_engine::keyed::KeyedList;
use rustler_live_view_toy_engine::types::avatars::Avatar;
use rustler_live_view_toy_engine::types::channel::Delivery;
use rustler_live_view_toy_engine::types::config::Config;
use rustler_live_view_toy_engine::types::entity::forward_message;
use rustler_live_view_toy_engine::types::session::Session;
use serde_json::Value;

fn new_session(master: &str) -> Session {
    let config = Config { master_key: master.to_string(), tcp_port: 4000 };
    Session::new(config, KeyedList::new())
}

/// Drops the session, so that every sender it held goes away, and returns
/// what reached `rx`.
fn drain(session: Session, rx: mpsc::UnboundedReceiver<Bytes>) -> Vec<String> {
    drop(session);
    rx.wait()
        .map(|packet| String::from_utf8(packet.unwrap().to_vec()).unwrap())
        .collect()
}

fn check_new_avatar_json(json: &str, key: &str) {
    let value: Value = serde_json::from_str(json).unwrap();
    let obj = value.as_object().unwrap();
    assert_eq!(obj.len(), 10);
    assert_eq!(obj["_op"], "add_avatar");
    assert_eq!(obj["key"], key);
    assert_eq!(obj["speed"], 10);
    assert_eq!(obj["x_velocity"], 0);
    assert_eq!(obj["y_velocity"], 0);
    for channel in ["r", "g", "b"].iter() {
        let v = obj[*channel].as_i64().unwrap();
        assert!(0 <= v && v < 255);
    }
    for coord in ["x", "y"].iter() {
        let v = obj[*coord].as_i64().unwrap();
        assert!(0 <= v && v < 100);
    }
    let expected = format!(
        "{{\"_op\":\"add_avatar\",\"b\":{},\"g\":{},\"key\":\"{}\",\"r\":{},\"speed\":10,\"x\":{},\"x_velocity\":0,\"y\":{},\"y_velocity\":0}}",
        obj["b"], obj["g"], key, obj["r"], obj["x"], obj["y"]
    );
    assert_eq!(json, expected);
}

#[test]
fn new_session_is_empty() {
    let session = new_session("master");
    assert_eq!(session.master_key, b"master".to_vec());
    assert_eq!(session.config.master_key, "master");
    assert_eq!(session.config.tcp_port, 4000);
    assert_eq!(session.entities.len(), 0);
    assert_eq!(session.avatars.len(), 0);
}

#[test]
fn master_entity_gets_no_avatar() {
    let mut session = new_session("master");
    let (tx, rx) = mpsc::unbounded();
    assert_eq!(session.add_entity(b"master", tx), (true, Delivery::Unsent));
    assert!(session.entities.contains_key(b"master"));
    assert_eq!(session.avatars.len(), 0);
    assert!(drain(session, rx).is_empty());
}

#[test]
fn other_entity_gets_avatar_announced_to_master() {
    let mut session = new_session("master");
    let (master_tx, master_rx) = mpsc::unbounded();
    let (tx, rx) = mpsc::unbounded();
    assert_eq!(session.add_entity(b"master", master_tx), (true, Delivery::Unsent));
    assert_eq!(session.add_entity(b"alice", tx), (false, Delivery::Accepted));
    assert!(session.entities.contains_key(b"alice"));
    let avatar = session.avatars.get(b"alice").expect("an avatar for alice");
    assert_eq!(avatar.key, "alice");
    assert_eq!(avatar.speed, 10);
    let avatar_json = avatar.to_json();
    let to_master = drain(session, master_rx);
    assert_eq!(to_master.len(), 1);
    check_new_avatar_json(&to_master[0], "alice");
    assert_eq!(to_master[0], avatar_json);
    assert!(rx.wait().next().is_none());
}

#[test]
fn updates_before_master_connects_are_lost() {
    let mut session = new_session("master");
    let (tx, rx) = mpsc::unbounded();
    assert_eq!(session.add_entity(b"bob", tx), (false, Delivery::Unsent));
    assert_eq!(session.avatars.len(), 1);
    let (master_tx, master_rx) = mpsc::unbounded();
    assert_eq!(session.add_entity(b"master", master_tx), (true, Delivery::Unsent));
    assert_eq!(session.handle_message(b"bob", "d".to_string()), Delivery::Accepted);
    let to_master = drain(session, master_rx);
    assert_eq!(to_master, vec!["{\"_op\":\"update_avatar\",\"key\":\"bob\",\"value\":\"d\"}".to_string()]);
    assert!(rx.wait().next().is_none());
}

#[test]
fn handle_message_forwards_update_to_master() {
    let mut session = new_session("m");
    let (master_tx, master_rx) = mpsc::unbounded();
    session.add_entity(b"m", master_tx);
    assert_eq!(session.handle_message(b"abc", "w".to_string()), Delivery::Accepted);
    assert_eq!(session.handle_message(b"abc", "a \"quoted\"".to_string()), Delivery::Accepted);
    let to_master = drain(session, master_rx);
    assert_eq!(
        to_master,
        vec![
            "{\"_op\":\"update_avatar\",\"key\":\"abc\",\"value\":\"w\"}".to_string(),
            "{\"_op\":\"update_avatar\",\"key\":\"abc\",\"value\":\"a \\\"quoted\\\"\"}".to_string(),
        ]
    );
}

#[test]
fn remove_entity_drops_avatar_and_tells_master() {
    let mut session = new_session("master");
    let (master_tx, master_rx) = mpsc::unbounded();
    let (tx, _rx) = mpsc::unbounded();
    session.add_entity(b"master", master_tx);
    session.add_entity(b"carol", tx);
    assert_eq!(session.remove_entity(b"carol"), Delivery::Accepted);
    assert!(!session.entities.contains_key(b"carol"));
    assert!(session.avatars.get(b"carol").is_none());
    assert!(session.entities.contains_key(b"master"));
    let to_master = drain(session, master_rx);
    assert_eq!(to_master.len(), 2);
    check_new_avatar_json(&to_master[0], "carol");
    assert_eq!(to_master[1], "{\"_op\":\"remove_avatar\",\"key\":\"carol\"}");
}

#[test]
fn removing_the_master_sends_it_nothing() {
    let mut session = new_session("master");
    let (master_tx, master_rx) = mpsc::unbounded();
    session.add_entity(b"master", master_tx);
    assert_eq!(session.remove_entity(b"master"), Delivery::Unsent);
    assert_eq!(session.entities.len(), 0);
    assert!(drain(session, master_rx).is_empty());
}

#[test]
fn connect_then_disconnect_restores_maps() {
    let mut session = new_session("master");
    let (master_tx, _master_rx) = mpsc::unbounded();
    session.add_entity(b"master", master_tx);
    let (tx, _rx) = mpsc::unbounded();
    session.add_entity(b"dave", tx);
    assert_eq!(session.entities.len(), 2);
    assert_eq!(session.avatars.len(), 1);
    session.remove_entity(b"dave");
    assert_eq!(session.entities.len(), 1);
    assert_eq!(session.avatars.len(), 0);
}

#[test]
fn reconnecting_replaces_channel_and_avatar() {
    let mut session = new_session("master");
    let (tx1, _rx1) = mpsc::unbounded();
    let (tx2, _rx2) = mpsc::unbounded();
    session.add_entity(b"erin", tx1);
    session.add_entity(b"erin", tx2);
    assert_eq!(session.entities.len(), 1);
    assert_eq!(session.avatars.len(), 1);
}

#[test]
fn add_avatar_stores_and_announces() {
    let mut session = new_session("master");
    let (master_tx, master_rx) = mpsc::unbounded();
    session.add_entity(b"master", master_tx);
    assert_eq!(session.add_avatar(b"frank"), Delivery::Accepted);
    assert!(!session.entities.contains_key(b"frank"));
    assert_eq!(session.avatars.get(b"frank").unwrap().key, "frank");
    let to_master = drain(session, master_rx);
    assert_eq!(to_master.len(), 1);
    check_new_avatar_json(&to_master[0], "frank");
}

#[test]
fn push_update_reaches_only_the_master() {
    let mut session = new_session("master");
    let (master_tx, master_rx) = mpsc::unbounded();
    let (tx, rx) = mpsc::unbounded();
    session.add_entity(b"master", master_tx);
    session.add_entity(b"gina", tx);
    assert_eq!(session.push_update("hello".to_string()), Delivery::Accepted);
    let to_master = drain(session, master_rx);
    assert_eq!(to_master.len(), 2);
    assert_eq!(to_master[1], "hello");
    assert!(rx.wait().next().is_none());
}

#[test]
fn push_update_without_master_goes_nowhere() {
    let mut session = new_session("master");
    let (tx, rx) = mpsc::unbounded();
    session.add_entity(b"hana", tx);
    assert_eq!(session.push_update("hello".to_string()), Delivery::Unsent);
    assert!(drain(session, rx).is_empty());
}

#[test]
fn forward_message_forwards_valid_text() {
    let mut session = new_session("master");
    let (master_tx, master_rx) = mpsc::unbounded();
    session.add_entity(b"master", master_tx);
    assert_eq!(forward_message(&mut session, b"ivan", "s".as_bytes()), Some(Delivery::Accepted));
    assert_eq!(forward_message(&mut session, b"ivan", "é".as_bytes()), Some(Delivery::Accepted));
    let to_master = drain(session, master_rx);
    assert_eq!(
        to_master,
        vec![
            "{\"_op\":\"update_avatar\",\"key\":\"ivan\",\"value\":\"s\"}".to_string(),
            "{\"_op\":\"update_avatar\",\"key\":\"ivan\",\"value\":\"\u{e9}\"}".to_string(),
        ]
    );
}

#[test]
fn forward_message_drops_invalid_utf8() {
    let mut session = new_session("master");
    let (master_tx, master_rx) = mpsc::unbounded();
    session.add_entity(b"master", master_tx);
    assert_eq!(forward_message(&mut session, b"ivan", &[0xff, 0xfe]), None);
    assert!(drain(session, master_rx).is_empty());
}

#[test]
fn random_avatar_is_in_range() {
    let mut seen_nonzero = [false; 5];
    for _ in 0..200 {
        let avatar = Avatar::random("k".to_string());
        for (i, v) in [avatar.r, avatar.g, avatar.b, avatar.x, avatar.y].iter().enumerate() {
            if *v != 0 {
                seen_nonzero[i] = true;
            }
        }
        assert_eq!(avatar.key, "k");
        assert_eq!(avatar.speed, 10);
        assert!(0 <= avatar.r && avatar.r < 255);
        assert!(0 <= avatar.g && avatar.g < 255);
        assert!(0 <= avatar.b && avatar.b < 255);
        assert!(0 <= avatar.x && avatar.x < 100);
        assert!(0 <= avatar.y && avatar.y < 100);
        assert_eq!(avatar.x_velocity, 0);
        assert_eq!(avatar.y_velocity, 0);
    }
    assert!(seen_nonzero.iter().all(|seen| *seen));
}

#[test]
fn avatar_json_exact() {
    let avatar = Avatar {
        key: "k\"1".to_string(),
        speed: 10,
        r: 1,
        g: 2,
        b: 3,
        x: 4,
        y: 5,
        x_velocity: 0,
        y_velocity: -1,
    };
    assert_eq!(
        avatar.to_json(),
        "{\"_op\":\"add_avatar\",\"b\":3,\"g\":2,\"key\":\"k\\\"1\",\"r\":1,\"speed\":10,\"x\":4,\"x_velocity\":0,\"y\":5,\"y_velocity\":-1}"
    );
}

#[test]
fn refused_delivery_is_reported() {
    let mut session = new_session("master");
    let (master_tx, master_rx) = mpsc::unbounded();
    session.add_entity(b"master", master_tx);
    drop(master_rx);
    assert_eq!(session.push_update("lost".to_string()), Delivery::Refused);
    let (tx, _rx) = mpsc::unbounded();
    assert_eq!(session.add_entity(b"jack", tx), (false, Delivery::Refused));
    assert_eq!(session.handle_message(b"jack", "w".to_string()), Delivery::Refused);
    assert_eq!(session.remove_entity(b"jack"), Delivery::Refused);
}

#[test]
fn new_entity_channel_receives_nothing() {
    let mut session = new_session("master");
    let (master_tx, master_rx) = mpsc::unbounded();
    let (tx, rx) = mpsc::unbounded();
    session.add_entity(b"master", master_tx);
    session.add_entity(b"kate", tx);
    session.handle_message(b"kate", "a".to_string());
    session.remove_entity(b"kate");
    assert!(rx.wait().next().is_none());
    assert_eq!(drain(session, master_rx).len(), 3);
}
