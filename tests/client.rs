use pubsub_client::client::{increment_with_limit, resync_frames, Client, ClientError, Command, Event, Reply};
use pubsub_client::protocol::{
    get_route_key, MessagePackage, Package, RegistrationPackage, SubscribePackage,
};
use pubsub_client::session::Session;

fn sub_frame(topic: &str, is_sub: bool) -> Vec<u8> {
    SubscribePackage { is_sub, route_key: get_route_key(&topic.to_string()), msg_key: topic.to_string() }
        .to_bytes()
}

fn msg_frame(topic: &str) -> Vec<u8> {
    MessagePackage { route_key: get_route_key(&topic.to_string()), msg_key: topic.to_string(), payload: vec![9] }
        .to_bytes()
}

/// A client that is connected with an empty session.
fn connected(max: u64) -> Client {
    let mut c = Client::new(Session::new(), max, 10);
    assert_eq!(c.recv(), Command::Connect { delay_ms: 0 });
    assert_eq!(c.step(Event::Opened), Command::Receive);
    assert_eq!(
        c.step(Event::Received(RegistrationPackage { is_router: false }.to_bytes())),
        Command::Done(Reply::Delivered(Package::Reg(RegistrationPackage { is_router: false })))
    );
    assert!(c.is_connected());
    c
}

#[test]
fn increment_respects_limit() {
    assert_eq!(increment_with_limit(0, 1, 0), Ok(1));
    assert_eq!(increment_with_limit(1, 1, 3), Ok(2));
    assert_eq!(increment_with_limit(2, 1, 3), Err(()));
    assert_eq!(increment_with_limit(3, 0, 3), Err(()));
    assert_eq!(increment_with_limit(u64::MAX - 1, 1, 0), Ok(u64::MAX));
}

#[test]
fn subscribe_connects_resyncs_and_sends() {
    let session = Session::from_parts(true, vec!["a".to_string()]);
    let mut c = Client::new(session, 0, 50);
    assert_eq!(c.subscribe("b".to_string()), Command::Connect { delay_ms: 0 });
    assert!(!c.is_connected());
    assert_eq!(c.step(Event::Opened), Command::Transmit(vec![0xA0]));
    assert_eq!(c.step(Event::Sent), Command::Transmit(sub_frame("a", true)));
    assert_eq!(c.step(Event::Sent), Command::Transmit(sub_frame("b", true)));
    assert!(!c.is_connected());
    assert_eq!(c.step(Event::Sent), Command::Transmit(sub_frame("b", true)));
    assert!(c.is_connected());
    assert_eq!(c.step(Event::Sent), Command::Done(Reply::Completed));
    assert!(!c.is_busy());
    assert!(c.get_session().is_sub("b".to_string()).is_some());
}

#[test]
fn resync_frames_list_role_then_topics() {
    let s = Session::from_parts(true, vec!["x".to_string(), "y".to_string()]);
    assert_eq!(resync_frames(&s), vec![vec![0xA0], sub_frame("x", true), sub_frame("y", true)]);
    let s = Session::from_parts(false, vec![]);
    assert!(resync_frames(&s).is_empty());
}

#[test]
fn second_subscribe_sends_nothing() {
    let mut c = connected(0);
    assert_eq!(c.subscribe("t".to_string()), Command::Transmit(sub_frame("t", true)));
    assert_eq!(c.step(Event::Sent), Command::Done(Reply::Completed));
    assert_eq!(c.subscribe("t".to_string()), Command::Done(Reply::Completed));
    assert!(!c.is_busy());
}

#[test]
fn backoff_grows_linearly_and_budget_ends() {
    let mut c = Client::new(Session::new(), 3, 100);
    assert_eq!(c.subscribe("t".to_string()), Command::Connect { delay_ms: 0 });
    assert_eq!(c.step(Event::OpenFailed), Command::Connect { delay_ms: 100 });
    assert_eq!(c.step(Event::OpenFailed), Command::Connect { delay_ms: 200 });
    assert_eq!(c.step(Event::OpenFailed), Command::Fail(ClientError::RetriesExhausted));
    assert_eq!(c.get_session().is_sub("t".to_string()), None);
    assert!(!c.is_busy());
}

#[test]
fn failed_unsubscribe_is_rolled_back() {
    let mut c = connected(1);
    assert_eq!(c.subscribe("t".to_string()), Command::Transmit(sub_frame("t", true)));
    assert_eq!(c.step(Event::Sent), Command::Done(Reply::Completed));
    let key = c.get_session().is_sub("t".to_string());
    assert!(key.is_some());
    assert_eq!(c.unsubscribe("t".to_string()), Command::Transmit(sub_frame("t", false)));
    assert_eq!(c.step(Event::SendFailed), Command::Connect { delay_ms: 0 });
    assert_eq!(c.step(Event::OpenFailed), Command::Fail(ClientError::RetriesExhausted));
    assert_eq!(c.get_session().is_sub("t".to_string()), key);
    assert!(!c.is_connected());
}

#[test]
fn failed_role_change_is_rolled_back() {
    let mut c = Client::new(Session::new(), 0, 1);
    assert_eq!(c.reg(true), Command::Connect { delay_ms: 0 });
    assert_eq!(c.step(Event::Unreachable), Command::Fail(ClientError::BadEndpoint));
    assert!(!c.get_session().is_a_router());
    assert_eq!(c.reg(false), Command::Done(Reply::Completed));
}

#[test]
fn resync_failure_retries_with_backoff() {
    let mut c = Client::new(Session::from_parts(false, vec!["a".to_string()]), 0, 7);
    assert_eq!(c.send(Package::Reg(RegistrationPackage { is_router: false })), Command::Connect { delay_ms: 0 });
    assert_eq!(c.step(Event::Opened), Command::Transmit(sub_frame("a", true)));
    assert_eq!(c.step(Event::SendFailed), Command::Connect { delay_ms: 7 });
    assert_eq!(c.step(Event::Opened), Command::Transmit(sub_frame("a", true)));
    assert_eq!(c.step(Event::Sent), Command::Transmit(vec![0x80]));
    assert_eq!(c.step(Event::Sent), Command::Done(Reply::Completed));
}

#[test]
fn next_filters_unwanted_packages() {
    let mut c = connected(0);
    assert_eq!(c.subscribe("mine".to_string()), Command::Transmit(sub_frame("mine", true)));
    assert_eq!(c.step(Event::Sent), Command::Done(Reply::Completed));
    assert_eq!(c.next(), Command::Receive);
    assert_eq!(c.step(Event::Received(sub_frame("other", true))), Command::Receive);
    assert_eq!(c.step(Event::Received(msg_frame("other"))), Command::Receive);
    assert_eq!(c.step(Event::Received(vec![0xC0])), Command::Receive);
    let expected = Package::Msg(MessagePackage {
        route_key: get_route_key(&"mine".to_string()),
        msg_key: "mine".to_string(),
        payload: vec![9],
    });
    assert_eq!(c.step(Event::Received(msg_frame("mine"))), Command::Done(Reply::Delivered(expected)));
}

#[test]
fn router_sees_subscribe_packages() {
    let mut c = connected(0);
    assert_eq!(c.reg(true), Command::Transmit(vec![0xA0]));
    assert_eq!(c.step(Event::Sent), Command::Done(Reply::Completed));
    assert_eq!(c.next(), Command::Receive);
    let frame = sub_frame("other", false);
    assert_eq!(
        c.step(Event::Received(frame.clone())),
        Command::Done(Reply::Delivered(Package::from_bytes(&frame).unwrap()))
    );
}

#[test]
fn recv_does_not_filter() {
    let mut c = connected(0);
    assert_eq!(c.recv(), Command::Receive);
    let frame = msg_frame("other");
    assert_eq!(
        c.step(Event::Received(frame.clone())),
        Command::Done(Reply::Delivered(Package::from_bytes(&frame).unwrap()))
    );
}

#[test]
fn receive_failure_reconnects() {
    let mut c = connected(0);
    assert_eq!(c.recv(), Command::Receive);
    assert_eq!(c.step(Event::ReceiveFailed), Command::Connect { delay_ms: 0 });
    assert_eq!(c.step(Event::OpenFailed), Command::Connect { delay_ms: 10 });
    assert_eq!(c.step(Event::Opened), Command::Receive);
    assert!(c.is_connected());
}

#[test]
fn accepts_matches_state() {
    let mut c = Client::new(Session::new(), 0, 1);
    assert!(!c.accepts(&Event::Opened));
    c.send(Package::Reg(RegistrationPackage { is_router: true }));
    assert!(c.accepts(&Event::Opened));
    assert!(!c.accepts(&Event::Sent));
    assert!(!c.accepts(&Event::Received(vec![])));
    c.step(Event::Opened);
    assert!(c.accepts(&Event::Sent));
    c.step(Event::Sent);
    c.close();
    assert!(!c.is_connected());
}
