use inbox_kernel::driver::{next_action, run, Action, Fetched, Outcome};
use inbox_kernel::envelope::{encode, InboxMessage};

fn message(level: u32, counter: u32, payload: &[u8]) -> InboxMessage {
    InboxMessage { level, counter, payload: payload.to_vec() }
}

fn raw(level: u32, counter: u32, payload: &[u8]) -> Fetched {
    Fetched::Message(encode(level, counter, payload))
}

#[test]
fn unknown_tag_between_two_messages_is_skipped() {
    let inbox = vec![raw(1, 0, b"hi"), Fetched::Message(vec![0xFF]), raw(1, 1, b"there")];
    let r = run(&inbox);
    assert_eq!(r.delivered, vec![message(1, 0, b"hi"), message(1, 1, b"there")]);
    assert_eq!(r.outcome, Outcome::Done);
}

#[test]
fn only_well_formed_messages_are_delivered_in_order() {
    let inbox = vec![
        Fetched::Message(vec![]),
        raw(4, 0, b"a"),
        Fetched::Message(vec![1, 0, 0]),
        Fetched::Message(vec![0, 1]),
        raw(4, 1, b"b"),
        raw(4, 2, b""),
        Fetched::Message(vec![0xAB, 1, 2, 3]),
    ];
    let r = run(&inbox);
    assert_eq!(r.delivered, vec![message(4, 0, b"a"), message(4, 1, b"b"), message(4, 2, b"")]);
    assert_eq!(r.outcome, Outcome::Done);
}

#[test]
fn host_failure_aborts_after_the_messages_before_it() {
    let inbox = vec![
        raw(2, 0, b"one"),
        Fetched::Message(vec![0xFF]),
        raw(2, 1, b"two"),
        Fetched::HostFailure,
        raw(2, 2, b"three"),
        Fetched::Exhausted,
    ];
    let r = run(&inbox);
    assert_eq!(r.delivered, vec![message(2, 0, b"one"), message(2, 1, b"two")]);
    assert_eq!(r.outcome, Outcome::Aborted);
}

#[test]
fn exhausted_ends_the_pass() {
    let inbox = vec![raw(3, 0, b"x"), Fetched::Exhausted, raw(3, 1, b"y"), Fetched::HostFailure];
    let r = run(&inbox);
    assert_eq!(r.delivered, vec![message(3, 0, b"x")]);
    assert_eq!(r.outcome, Outcome::Done);
}

#[test]
fn empty_inbox_delivers_nothing() {
    let r = run(&Vec::new());
    assert!(r.delivered.is_empty());
    assert_eq!(r.outcome, Outcome::Done);
}

#[test]
fn host_failure_first_delivers_nothing() {
    let r = run(&vec![Fetched::HostFailure, raw(1, 0, b"late")]);
    assert!(r.delivered.is_empty());
    assert_eq!(r.outcome, Outcome::Aborted);
}

#[test]
fn next_action_for_each_answer() {
    match next_action(&raw(7, 9, b"p")) {
        Action::Deliver(m) => assert_eq!(m, message(7, 9, b"p")),
        other => panic!("unexpected action {:?}", other),
    }
    assert!(matches!(next_action(&Fetched::Message(vec![0xFF])), Action::Drop));
    assert!(matches!(next_action(&Fetched::Message(vec![])), Action::Drop));
    assert!(matches!(next_action(&Fetched::Exhausted), Action::Finish));
    assert!(matches!(next_action(&Fetched::HostFailure), Action::Abort));
}
