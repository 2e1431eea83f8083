use pubsub_client::protocol::get_route_key;
use pubsub_client::session::Session;

#[test]
fn new_session_is_empty() {
    let s = Session::new();
    assert!(!s.is_a_router());
    assert!(s.sub_msg_keys().is_empty());
    assert!(s.all_keys().is_empty());
}

#[test]
fn sub_reports_change_once() {
    let mut s = Session::new();
    let k = get_route_key(&"orders".to_string());
    assert_eq!(s.sub("orders".to_string()), Some(k));
    assert_eq!(s.sub("orders".to_string()), None);
    assert_eq!(s.is_sub("orders".to_string()), Some(k));
    assert_eq!(s.sub_msg_keys(), vec!["orders".to_string()]);
    assert_eq!(s.sub_router_keys(), vec![k]);
}

#[test]
fn unsub_reports_change_once() {
    let mut s = Session::new();
    s.sub("a".to_string());
    s.sub("b".to_string());
    assert_eq!(s.unsub("a".to_string()), Some(get_route_key(&"a".to_string())));
    assert_eq!(s.unsub("a".to_string()), None);
    assert_eq!(s.is_sub("a".to_string()), None);
    assert_eq!(s.sub_msg_keys(), vec!["b".to_string()]);
}

#[test]
fn set_role_reports_change() {
    let mut s = Session::new();
    assert_eq!(s.set_a_router(false), None);
    assert_eq!(s.set_a_router(true), Some(()));
    assert!(s.is_a_router());
    assert_eq!(s.set_a_router(true), None);
}

#[test]
fn clear_keeps_role() {
    let mut s = Session::new();
    s.set_a_router(true);
    s.sub("x".to_string());
    assert!(s.clear_subscriptions().is_a_router());
    assert!(s.sub_msg_keys().is_empty());
}

#[test]
fn restored_session_drops_repeats() {
    let s = Session::from_parts(true, vec!["a".to_string(), "b".to_string(), "a".to_string()]);
    assert!(s.is_a_router());
    assert_eq!(s.sub_msg_keys(), vec!["a".to_string(), "b".to_string()]);
    let all = s.all_keys();
    assert_eq!(all[1], ("b".to_string(), get_route_key(&"b".to_string())));
    assert_eq!(s.duplicate().sub_msg_keys(), s.sub_msg_keys());
}
