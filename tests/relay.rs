use chat_relay::{
    bearer_token, extract_username, extract_username_from_message, joined_text, left_text,
    miss_text, resolve, Broker, Duty, InboundMessage, OutboundMessage, Session,
};

fn directed(from: &str, to: &str, content: &str) -> OutboundMessage {
    OutboundMessage { from: from.to_string(), to: Some(to.to_string()), content: content.to_string() }
}

fn broadcast(from: &str, content: &str) -> OutboundMessage {
    OutboundMessage { from: from.to_string(), to: None, content: content.to_string() }
}

fn contents(msgs: &[OutboundMessage]) -> Vec<String> {
    msgs.iter().map(|m| m.content.clone()).collect()
}

#[test]
fn resolve_known_credentials() {
    assert_eq!(resolve("token-alice"), Some("alice".to_string()));
    assert_eq!(resolve("token-bob"), Some("bob".to_string()));
    assert_eq!(resolve("token-charlie"), Some("charlie".to_string()));
}

#[test]
fn resolve_rejects_unknown_credentials() {
    assert_eq!(resolve(""), None);
    assert_eq!(resolve("token-dave"), None);
    assert_eq!(resolve("token-alice "), None);
    assert_eq!(resolve("SYSTEM"), None);
}

#[test]
fn bearer_header_parsing() {
    assert_eq!(bearer_token("Bearer token-bob"), Some("token-bob"));
    assert_eq!(bearer_token("Bearer "), Some(""));
    assert_eq!(bearer_token("Basic token-bob"), None);
    assert_eq!(bearer_token("Bearer"), None);
    assert_eq!(extract_username("Bearer token-charlie"), Some("charlie".to_string()));
    assert_eq!(extract_username("token-charlie"), None);
    assert_eq!(extract_username("Bearer token-x"), None);
}

#[test]
fn auth_frame_parsing() {
    assert_eq!(extract_username_from_message(r#"{"token": "token-alice"}"#), Some("alice".to_string()));
    assert_eq!(extract_username_from_message(r#"{"token":"token-bob","x":1}"#), Some("bob".to_string()));
    assert_eq!(extract_username_from_message(r#"{"token": "token-zed"}"#), None);
    assert_eq!(extract_username_from_message(r#"{"token": 7}"#), None);
    assert_eq!(extract_username_from_message(r#"{"tok": "token-alice"}"#), None);
    assert_eq!(extract_username_from_message("token-alice"), None);
    assert_eq!(extract_username_from_message(r#"["token-alice"]"#), None);
}

#[test]
fn announcement_texts() {
    assert_eq!(joined_text("alice"), "alice joined the chat");
    assert_eq!(left_text("bob"), "bob left the chat");
    assert_eq!(miss_text("zed"), "User 'zed' not found or offline");
}

#[test]
fn join_then_lookup_until_removed() {
    let mut b = Broker::new();
    let name = resolve("token-alice").unwrap();
    let h = b.join(name.clone());
    assert_eq!(b.lookup(&name), Some(h));
    let other = b.join("bob".to_string());
    assert_ne!(other, h);
    b.remove(&"bob".to_string());
    assert_eq!(b.lookup(&name), Some(h));
    assert_eq!(b.remove(&name), Some(h));
    assert_eq!(b.lookup(&name), None);
    assert_eq!(b.remove(&name), None);
}

#[test]
fn rejoin_keeps_latest_handle() {
    let mut b = Broker::new();
    let first = b.join("alice".to_string());
    let second = b.join("alice".to_string());
    assert_ne!(first, second);
    assert_eq!(b.lookup(&"alice".to_string()), Some(second));
    b.remove(&"alice".to_string());
    assert_eq!(b.lookup(&"alice".to_string()), None);
}

#[test]
fn deregister_spares_a_newer_entry() {
    let mut b = Broker::new();
    let first = b.join("alice".to_string());
    let second = b.join("alice".to_string());
    assert!(!b.deregister(&"alice".to_string(), first));
    assert_eq!(b.lookup(&"alice".to_string()), Some(second));
    assert!(b.deregister(&"alice".to_string(), second));
    assert_eq!(b.lookup(&"alice".to_string()), None);
}

#[test]
fn broadcast_reaches_all_but_sender() {
    let mut b = Broker::new();
    let ha = b.join("alice".to_string());
    let hb = b.join("bob".to_string());
    let hc = b.join("charlie".to_string());
    b.deliver(&broadcast("alice", "hi all"));
    assert!(b.take_pending(ha).is_empty());
    let got_b = b.take_pending(hb);
    assert_eq!(contents(&got_b), vec!["hi all".to_string()]);
    assert_eq!(got_b[0].from, "alice");
    assert_eq!(got_b[0].to, None);
    assert_eq!(contents(&b.take_pending(hc)), vec!["hi all".to_string()]);
}

#[test]
fn directed_reaches_only_target() {
    let mut b = Broker::new();
    let ha = b.join("alice".to_string());
    let hb = b.join("bob".to_string());
    b.deliver(&directed("alice", "bob", "psst"));
    assert!(b.take_pending(ha).is_empty());
    let got = b.take_pending(hb);
    assert_eq!(got.len(), 1);
    assert_eq!(got[0].from, "alice");
    assert_eq!(got[0].to, Some("bob".to_string()));
    assert_eq!(got[0].content, "psst");
}

#[test]
fn directed_to_missing_is_dropped() {
    let mut b = Broker::new();
    let ha = b.join("alice".to_string());
    let hb = b.join("bob".to_string());
    b.deliver(&directed("alice", "nonexistent", "hello?"));
    assert!(b.take_pending(ha).is_empty());
    assert!(b.take_pending(hb).is_empty());
    b.route_message(directed("alice", "nonexistent", "hello?"), false);
    assert!(b.take_pending(ha).is_empty());
    assert!(b.take_pending(hb).is_empty());
}

#[test]
fn directed_to_missing_can_notify_sender() {
    let mut b = Broker::new();
    let ha = b.join("alice".to_string());
    let hb = b.join("bob".to_string());
    b.route_message(directed("alice", "zed", "hello?"), true);
    let got = b.take_pending(ha);
    assert_eq!(got.len(), 1);
    assert_eq!(got[0].from, "SYSTEM");
    assert_eq!(got[0].to, Some("alice".to_string()));
    assert_eq!(got[0].content, "User 'zed' not found or offline");
    assert!(b.take_pending(hb).is_empty());
    b.route_message(directed("alice", "bob", "found"), true);
    assert_eq!(contents(&b.take_pending(hb)), vec!["found".to_string()]);
}

#[test]
fn order_kept_amid_other_traffic() {
    let mut b = Broker::new();
    let _ha = b.join("alice".to_string());
    let hb = b.join("bob".to_string());
    let _hc = b.join("charlie".to_string());
    b.deliver(&directed("alice", "bob", "m1"));
    b.deliver(&broadcast("charlie", "noise"));
    b.deliver(&directed("charlie", "alice", "aside"));
    b.deliver(&directed("alice", "bob", "m2"));
    assert_eq!(
        contents(&b.take_pending(hb)),
        vec!["m1".to_string(), "noise".to_string(), "m2".to_string()]
    );
}

#[test]
fn closed_handle_drops_deliveries() {
    let mut b = Broker::new();
    let _ha = b.join("alice".to_string());
    let hb = b.join("bob".to_string());
    b.deliver(&directed("alice", "bob", "before"));
    assert!(b.is_open(hb));
    b.close(hb);
    assert!(!b.is_open(hb));
    assert!(b.take_pending(hb).is_empty());
    b.deliver(&directed("alice", "bob", "after"));
    assert!(b.take_pending(hb).is_empty());
}

#[test]
fn announce_comes_from_system_to_everyone() {
    let mut b = Broker::new();
    let ha = b.join("alice".to_string());
    let hb = b.join("bob".to_string());
    b.announce("hello".to_string());
    for h in [ha, hb] {
        let got = b.take_pending(h);
        assert_eq!(got.len(), 1);
        assert_eq!(got[0].from, "SYSTEM");
        assert_eq!(got[0].to, None);
        assert_eq!(got[0].content, "hello");
    }
}

#[test]
fn session_open_announces_join() {
    let mut b = Broker::new();
    let ha = b.join("alice".to_string());
    let s = Session::open(&mut b, "bob".to_string());
    assert_eq!(s.identity(), "bob");
    assert_eq!(b.lookup(&"bob".to_string()), Some(s.handle()));
    assert_eq!(contents(&b.take_pending(ha)), vec!["bob joined the chat".to_string()]);
    assert_eq!(contents(&b.take_pending(s.handle())), vec!["bob joined the chat".to_string()]);
}

#[test]
fn teardown_announces_left_once_reader_first() {
    let mut b = Broker::new();
    let ha = b.join("alice".to_string());
    let mut s = Session::open(&mut b, "bob".to_string());
    b.take_pending(ha);
    assert!(!s.duty_ended(&mut b, Duty::Reader));
    assert_eq!(b.lookup(&"bob".to_string()), None);
    assert!(!s.is_finished());
    assert!(s.duty_ended(&mut b, Duty::Writer));
    assert!(s.is_finished());
    assert!(!s.duty_ended(&mut b, Duty::Writer));
    assert_eq!(contents(&b.take_pending(ha)), vec!["bob left the chat".to_string()]);
    assert!(!b.is_open(s.handle()));
}

#[test]
fn teardown_announces_left_once_writer_first() {
    let mut b = Broker::new();
    let ha = b.join("alice".to_string());
    let mut s = Session::open(&mut b, "bob".to_string());
    b.take_pending(ha);
    assert!(!s.duty_ended(&mut b, Duty::Writer));
    assert_eq!(b.lookup(&"bob".to_string()), None);
    assert!(s.duty_ended(&mut b, Duty::Reader));
    assert_eq!(contents(&b.take_pending(ha)), vec!["bob left the chat".to_string()]);
}

#[test]
fn teardown_leaves_newer_session_registered() {
    let mut b = Broker::new();
    let mut old = Session::open(&mut b, "alice".to_string());
    let newer = Session::open(&mut b, "alice".to_string());
    old.duty_ended(&mut b, Duty::Reader);
    old.duty_ended(&mut b, Duty::Writer);
    assert_eq!(b.lookup(&"alice".to_string()), Some(newer.handle()));
}

#[test]
fn malformed_frame_does_not_end_session() {
    let mut b = Broker::new();
    let s = Session::open(&mut b, "alice".to_string());
    let hb = b.join("bob".to_string());
    b.take_pending(hb);
    s.on_frame(&mut b, None, false);
    assert!(b.take_pending(hb).is_empty());
    assert_eq!(b.lookup(&"alice".to_string()), Some(s.handle()));
    let frame = InboundMessage { to: Some("bob".to_string()), content: "still here".to_string() };
    s.on_frame(&mut b, Some(frame), false);
    let got = b.take_pending(hb);
    assert_eq!(got.len(), 1);
    assert_eq!(got[0].from, "alice");
    assert_eq!(got[0].content, "still here");
}

#[test]
fn message_copies() {
    let m = directed("a", "b", "c");
    let d = m.duplicate();
    assert_eq!(d.from, "a");
    assert_eq!(d.to, Some("b".to_string()));
    assert_eq!(d.content, "c");
    let i = InboundMessage { to: None, content: "x".to_string() };
    let o = OutboundMessage::from_inbound(&"carol".to_string(), i);
    assert_eq!(o.from, "carol");
    assert_eq!(o.to, None);
    assert_eq!(o.content, "x");
    let a = OutboundMessage::announcement("t".to_string());
    assert_eq!(a.from, "SYSTEM");
}

#[test]
fn auth_frame_edge_cases() {
    assert_eq!(extract_username_from_message("not json"), None);
    assert_eq!(extract_username_from_message(r#"{"token": 42}"#), None);
    assert_eq!(extract_username_from_message(""), None);
    assert_eq!(extract_username_from_message("null"), None);
    assert_eq!(extract_username_from_message(r#"{"token": "token-charlie""#), None);
    assert_eq!(extract_username_from_message(r#"{"token": "token-charlie"}"#), Some("charlie".to_string()));
}

#[test]
fn broadcast_order_kept_amid_other_traffic() {
    let mut b = Broker::new();
    let _ha = b.join("alice".to_string());
    let hb = b.join("bob".to_string());
    let _hc = b.join("charlie".to_string());
    b.deliver(&broadcast("alice", "m1"));
    b.deliver(&directed("charlie", "alice", "aside"));
    b.deliver(&directed("charlie", "bob", "between"));
    b.deliver(&broadcast("alice", "m2"));
    assert_eq!(
        contents(&b.take_pending(hb)),
        vec!["m1".to_string(), "between".to_string(), "m2".to_string()]
    );
}

#[test]
fn rejoin_routes_to_latest_handle_only() {
    let mut b = Broker::new();
    let hc = b.join("charlie".to_string());
    let h1 = b.join("alice".to_string());
    let h2 = b.join("alice".to_string());
    b.deliver(&directed("charlie", "alice", "direct"));
    b.deliver(&broadcast("charlie", "all"));
    b.announce("sys".to_string());
    assert!(b.take_pending(h1).is_empty());
    assert_eq!(
        contents(&b.take_pending(h2)),
        vec!["direct".to_string(), "all".to_string(), "sys".to_string()]
    );
    assert_eq!(contents(&b.take_pending(hc)), vec!["sys".to_string()]);
}

#[test]
fn removed_handle_gets_nothing() {
    let mut b = Broker::new();
    let ha = b.join("alice".to_string());
    let hb = b.join("bob".to_string());
    b.announce("before".to_string());
    assert_eq!(contents(&b.take_pending(hb)), vec!["before".to_string()]);
    b.remove(&"bob".to_string());
    b.announce("after".to_string());
    b.deliver(&directed("alice", "bob", "lost"));
    assert!(b.take_pending(hb).is_empty());
    assert_eq!(contents(&b.take_pending(ha)), vec!["before".to_string(), "after".to_string()]);
}

#[test]
fn departure_reaches_every_other_handle_once() {
    let mut b = Broker::new();
    let ha = b.join("alice".to_string());
    let hc = b.join("charlie".to_string());
    let mut s = Session::open(&mut b, "bob".to_string());
    b.take_pending(ha);
    b.take_pending(hc);
    s.duty_ended(&mut b, Duty::Writer);
    s.duty_ended(&mut b, Duty::Reader);
    for h in [ha, hc] {
        let got = b.take_pending(h);
        assert_eq!(got.len(), 1);
        assert_eq!(got[0].from, "SYSTEM");
        assert_eq!(got[0].content, "bob left the chat");
    }
    assert!(b.take_pending(s.handle()).is_empty());
}
