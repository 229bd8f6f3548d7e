use std::collections::HashMap;

use async_chat::history::HISTORY_CAP;
use async_chat::session::{hears, Hub, Outgoing, Phase, Session, IDLE_TIMEOUT_SECS, PING_LINE};

/// Delivers `out`, produced by `from`, the way the server does: private lines
/// to their connection, room lines to every connection that hears them.
fn route(sessions: &[&Session], from: u64, out: &[Outgoing], inbox: &mut HashMap<u64, Vec<String>>) {
    for o in out {
        match o {
            Outgoing::ToSelf(t) => inbox.entry(from).or_default().push(t.clone()),
            Outgoing::ToPeer(id, t) => inbox.entry(*id).or_default().push(t.clone()),
            Outgoing::ToRoom(t) => {
                for s in sessions {
                    if hears(s.id(), from) {
                        inbox.entry(s.id()).or_default().push(t.clone());
                    }
                }
            }
        }
    }
}

fn room(t: &str) -> Outgoing {
    Outgoing::ToRoom(t.to_string())
}

fn me(t: &str) -> Outgoing {
    Outgoing::ToSelf(t.to_string())
}

#[test]
fn join_with_nick() {
    let mut hub: Hub<u32> = Hub::new();
    let mut a = Session::new(1, "127.0.0.1:4001".to_string());
    assert_eq!(a.phase(), Phase::Registering);
    let out = a.join(&mut hub, "/nick alice", 1);
    assert_eq!(out, vec![room("-- alice joined")]);
    assert_eq!(a.name(), "alice");
    assert_eq!(a.phase(), Phase::Active);
    assert_eq!(hub.history().snapshot(), vec!["-- alice joined".to_string()]);
    assert_eq!(hub.outbound(1), Some(&1));
}

#[test]
fn join_without_nick_uses_label_and_chats() {
    let mut hub: Hub<u32> = Hub::new();
    let mut a = Session::new(1, "127.0.0.1:4001".to_string());
    let out = a.join(&mut hub, "  hello there ", 1);
    assert_eq!(out, vec![room("-- 127.0.0.1:4001 joined"), room("[127.0.0.1:4001] hello there")]);
    assert_eq!(a.name(), "127.0.0.1:4001");
    assert_eq!(
        hub.history().snapshot(),
        vec!["-- 127.0.0.1:4001 joined".to_string(), "[127.0.0.1:4001] hello there".to_string()]
    );
}

#[test]
fn join_with_blank_first_line() {
    let mut hub: Hub<u32> = Hub::new();
    let mut a = Session::new(1, "a:1".to_string());
    let out = a.join(&mut hub, "   ", 1);
    assert_eq!(out, vec![room("-- a:1 joined")]);
    assert_eq!(hub.history().len(), 1);
}

#[test]
fn same_nick_twice_gets_fallback() {
    let mut hub: Hub<u32> = Hub::new();
    let mut a = Session::new(1, "127.0.0.1:4001".to_string());
    let mut b = Session::new(2, "127.0.0.1:4002".to_string());
    a.join(&mut hub, "/nick sam", 1);
    let out = b.join(&mut hub, "/nick sam", 2);
    assert_eq!(
        out,
        vec![
            me("** Nick 'sam' is taken. You are 127.0.0.1:4002"),
            room("-- 127.0.0.1:4002 joined"),
            me("[history] -- sam joined"),
        ]
    );
    assert_eq!(a.name(), "sam");
    assert_eq!(b.name(), "127.0.0.1:4002");
    assert_ne!(a.name(), b.name());
    assert_eq!(hub.registry().identity_of("sam"), Some(1));
    assert_eq!(hub.registry().identity_of("127.0.0.1:4002"), Some(2));
}

#[test]
fn fallback_when_label_is_taken_by_a_nick() {
    let mut hub: Hub<u32> = Hub::new();
    let mut a = Session::new(1, "x:1".to_string());
    let mut b = Session::new(2, "x:2".to_string());
    a.join(&mut hub, "/nick x:2", 1);
    let out = b.join(&mut hub, "hi", 2);
    assert_eq!(b.name(), "x:2_");
    assert_eq!(out[0], room("-- x:2_ joined"));
}

#[test]
fn newcomer_gets_history_then_not_its_own_join() {
    let mut hub: Hub<u32> = Hub::new();
    let mut a = Session::new(1, "a:1".to_string());
    a.join(&mut hub, "/nick alice", 1);
    a.on_line(&mut hub, "first");
    a.on_line(&mut hub, "second");
    let mut b = Session::new(2, "b:2".to_string());
    let out = b.join(&mut hub, "/nick bob", 2);
    assert_eq!(
        out,
        vec![
            room("-- bob joined"),
            me("[history] -- alice joined"),
            me("[history] [alice] first"),
            me("[history] [alice] second"),
        ]
    );
    let mut inbox = HashMap::new();
    route(&[&a, &b], b.id(), &out, &mut inbox);
    assert_eq!(inbox.get(&1).unwrap(), &vec!["-- bob joined".to_string()]);
    assert_eq!(
        inbox.get(&2).unwrap(),
        &vec![
            "[history] -- alice joined".to_string(),
            "[history] [alice] first".to_string(),
            "[history] [alice] second".to_string(),
        ]
    );
}

#[test]
fn whisper_to_unknown_is_private() {
    let mut hub: Hub<u32> = Hub::new();
    let mut a = Session::new(1, "a:1".to_string());
    a.join(&mut hub, "/nick alice", 1);
    let before = hub.history().snapshot();
    let out = a.on_line(&mut hub, "/w nobody are you there");
    assert_eq!(out, vec![me("** User 'nobody' not found")]);
    assert_eq!(hub.history().snapshot(), before);
}

#[test]
fn malformed_whisper_is_ignored() {
    let mut hub: Hub<u32> = Hub::new();
    let mut a = Session::new(1, "a:1".to_string());
    a.join(&mut hub, "/nick alice", 1);
    assert_eq!(a.on_line(&mut hub, "/w alice"), vec![]);
    assert_eq!(a.on_line(&mut hub, "/w alice    "), vec![]);
    assert_eq!(hub.history().len(), 1);
}

#[test]
fn blank_lines_are_ignored() {
    let mut hub: Hub<u32> = Hub::new();
    let mut a = Session::new(1, "a:1".to_string());
    a.join(&mut hub, "/nick alice", 1);
    assert_eq!(a.on_line(&mut hub, ""), vec![]);
    assert_eq!(a.on_line(&mut hub, " \t "), vec![]);
    assert_eq!(hub.history().len(), 1);
}

#[test]
fn rename_success_and_taken() {
    let mut hub: Hub<u32> = Hub::new();
    let mut a = Session::new(1, "a:1".to_string());
    let mut b = Session::new(2, "b:2".to_string());
    a.join(&mut hub, "/nick alice", 1);
    b.join(&mut hub, "/nick bob", 2);
    let out = a.on_line(&mut hub, "/nick ally");
    assert_eq!(out, vec![room("-- alice -> ally")]);
    assert_eq!(a.name(), "ally");
    let out = b.on_line(&mut hub, "/nick ally");
    assert_eq!(out, vec![me("** Nick 'ally' is taken")]);
    assert_eq!(b.name(), "bob");
    assert_eq!(hub.registry().identity_of("bob"), Some(2));
    assert_eq!(hub.registry().identity_of("ally"), Some(1));
    assert_eq!(hub.history().snapshot().last().unwrap(), "-- alice -> ally");
}

#[test]
fn chat_uses_trimmed_line() {
    let mut hub: Hub<u32> = Hub::new();
    let mut a = Session::new(1, "a:1".to_string());
    a.join(&mut hub, "/nick alice", 1);
    let out = a.on_line(&mut hub, "   hi all  ");
    assert_eq!(out, vec![room("[alice] hi all")]);
}

#[test]
fn idle_timeout_closes_and_leaves_once() {
    let mut hub: Hub<u32> = Hub::new();
    let mut a = Session::new(1, "a:1".to_string());
    a.join(&mut hub, "/nick alice", 1);
    let out = a.on_idle(&hub);
    assert_eq!(out, vec![me(&format!("** Idle timeout: no input for {}s, disconnecting.", IDLE_TIMEOUT_SECS))]);
    assert_eq!(out, vec![me("** Idle timeout: no input for 300s, disconnecting.")]);
    assert_eq!(a.phase(), Phase::Closing);
    let out = a.close(&mut hub);
    assert_eq!(out, vec![room("-- alice left")]);
    assert_eq!(a.phase(), Phase::Closed);
    assert_eq!(hub.registry().identity_of("alice"), None);
    assert_eq!(a.close(&mut hub), vec![]);
    assert_eq!(a.on_idle(&hub), vec![]);
    assert_eq!(a.on_line(&mut hub, "hello"), vec![]);
    a.on_end(&hub);
    assert_eq!(a.phase(), Phase::Closed);
    let lefts = hub.history().snapshot().iter().filter(|l| l.ends_with(" left")).count();
    assert_eq!(lefts, 1);
}

#[test]
fn end_before_first_line_sends_nothing() {
    let hub: Hub<u32> = Hub::new();
    let mut a = Session::new(1, "a:1".to_string());
    a.on_end(&hub);
    assert_eq!(a.phase(), Phase::Closed);
    assert_eq!(hub.history().len(), 0);
}

#[test]
fn end_while_active_then_close() {
    let mut hub: Hub<u32> = Hub::new();
    let mut a = Session::new(1, "a:1".to_string());
    a.join(&mut hub, "hey", 1);
    a.on_end(&hub);
    assert_eq!(a.phase(), Phase::Closing);
    assert_eq!(a.close(&mut hub), vec![room("-- a:1 left")]);
    assert_eq!(hub.registry().len(), 0);
}

#[test]
fn identity_in_use_cannot_join() {
    let mut hub: Hub<u32> = Hub::new();
    let mut a = Session::new(1, "a:1".to_string());
    let mut dup = Session::new(1, "a:9".to_string());
    a.join(&mut hub, "/nick alice", 1);
    assert_eq!(dup.join(&mut hub, "/nick other", 9), vec![]);
    assert_eq!(dup.phase(), Phase::Closed);
    assert_eq!(hub.outbound(1), Some(&1));
}

#[test]
fn history_replay_is_capped() {
    let mut hub: Hub<u32> = Hub::new();
    let mut a = Session::new(1, "a:1".to_string());
    a.join(&mut hub, "/nick alice", 1);
    for i in 0..HISTORY_CAP + 5 {
        a.on_line(&mut hub, &format!("m{i}"));
    }
    let mut b = Session::new(2, "b:2".to_string());
    let out = b.join(&mut hub, "/nick bob", 2);
    assert_eq!(out.len(), 1 + HISTORY_CAP);
    assert_eq!(out[1], me("[history] [alice] m5"));
    assert_eq!(out[HISTORY_CAP], me(&format!("[history] [alice] m{}", HISTORY_CAP + 4)));
}

#[test]
fn three_connections_broadcast_and_whisper() {
    let mut hub: Hub<&'static str> = Hub::new();
    let mut a = Session::new(1, "10.0.0.1:5001".to_string());
    let mut b = Session::new(2, "10.0.0.2:5002".to_string());
    let mut c = Session::new(3, "10.0.0.3:5003".to_string());
    let mut inbox: HashMap<u64, Vec<String>> = HashMap::new();
    let out = a.join(&mut hub, "", "A");
    route(&[&a, &b, &c], 1, &out, &mut inbox);
    let out = b.join(&mut hub, "", "B");
    route(&[&a, &b, &c], 2, &out, &mut inbox);
    let out = c.join(&mut hub, "", "C");
    route(&[&a, &b, &c], 3, &out, &mut inbox);
    inbox.clear();

    let out = a.on_line(&mut hub, "hello");
    route(&[&a, &b, &c], 1, &out, &mut inbox);
    let hello = "[10.0.0.1:5001] hello".to_string();
    assert_eq!(inbox.get(&2).unwrap().iter().filter(|l| **l == hello).count(), 1);
    assert_eq!(inbox.get(&3).unwrap().iter().filter(|l| **l == hello).count(), 1);
    assert!(inbox.get(&1).is_none());

    let out = b.on_line(&mut hub, &format!("/w {} secret", c.name()));
    assert_eq!(out, vec![
        Outgoing::ToPeer(3, "[whisper from 10.0.0.2:5002] secret".to_string()),
        me("[whisper to 10.0.0.3:5003] secret"),
    ]);
    route(&[&a, &b, &c], 2, &out, &mut inbox);
    assert_eq!(inbox.get(&3).unwrap().last().unwrap(), "[whisper from 10.0.0.2:5002] secret");
    assert_eq!(inbox.get(&2).unwrap(), &vec!["[10.0.0.1:5001] hello".to_string(), "[whisper to 10.0.0.3:5003] secret".to_string()]);
    assert!(inbox.get(&1).is_none());
    assert_eq!(hub.outbound(3), Some(&"C"));
    assert!(!hub.history().snapshot().iter().any(|l| l.contains("secret")));
}

#[test]
fn own_room_lines_are_not_heard() {
    assert!(!hears(4, 4));
    assert!(hears(4, 5));
    assert_eq!(PING_LINE, "PING");
}

#[test]
fn whisper_with_extra_spaces_before_target() {
    let mut hub: Hub<u32> = Hub::new();
    let mut a = Session::new(1, "a:1".to_string());
    let mut b = Session::new(2, "b:2".to_string());
    a.join(&mut hub, "/nick alice", 1);
    b.join(&mut hub, "/nick bob", 2);
    let out = a.on_line(&mut hub, "/w  bob hi");
    assert_eq!(out, vec![
        Outgoing::ToPeer(2, "[whisper from alice] hi".to_string()),
        me("[whisper to bob] hi"),
    ]);
}

#[test]
fn close_frees_the_name() {
    let mut hub: Hub<u32> = Hub::new();
    let mut a = Session::new(1, "a:1".to_string());
    let mut b = Session::new(2, "b:2".to_string());
    a.join(&mut hub, "/nick alice", 1);
    b.join(&mut hub, "/nick bob", 2);
    a.on_end(&hub);
    a.close(&mut hub);
    assert_eq!(hub.registry().identity_of("alice"), None);
    assert_eq!(hub.registry().identity_of("bob"), Some(2));
    assert_eq!(hub.outbound(1), None);
    let mut c = Session::new(3, "c:3".to_string());
    c.join(&mut hub, "/nick alice", 3);
    assert_eq!(c.name(), "alice");
}
