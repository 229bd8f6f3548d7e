use async_chat::history::{History, HISTORY_CAP};

#[test]
fn history_keeps_order_below_cap() {
    let mut h = History::new();
    assert_eq!(h.len(), 0);
    h.append("one".to_string());
    h.append("two".to_string());
    assert_eq!(h.snapshot(), vec!["one".to_string(), "two".to_string()]);
}

#[test]
fn history_keeps_last_cap_lines() {
    let mut h = History::new();
    let k = 7;
    for i in 0..HISTORY_CAP + k {
        h.append(format!("line {i}"));
        assert!(h.len() <= HISTORY_CAP);
    }
    let expected: Vec<String> = (k..HISTORY_CAP + k).map(|i| format!("line {i}")).collect();
    assert_eq!(h.len(), HISTORY_CAP);
    assert_eq!(h.snapshot(), expected);
}

#[test]
fn history_exactly_full_then_one_more() {
    let mut h = History::new();
    for i in 0..HISTORY_CAP {
        h.append(format!("{i}"));
    }
    assert_eq!(h.snapshot()[0], "0");
    h.append("new".to_string());
    let snap = h.snapshot();
    assert_eq!(snap.len(), 50);
    assert_eq!(snap[0], "1");
    assert_eq!(snap[49], "new");
}
