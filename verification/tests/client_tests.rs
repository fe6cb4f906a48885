use mars_rover::client::{Action, Event, Session, POLL_MILLIS, READ_BUFFER};
use mars_rover::dispatcher::Message;

fn submitted(action: Action) -> Message {
    match action {
        Action::Submit(message) => message,
        other => panic!("not a submit: {:?}", other),
    }
}

fn closing(action: Action) -> Message {
    match action {
        Action::Close(message) => message,
        other => panic!("not a close: {:?}", other),
    }
}

#[test]
fn limits_of_a_connection() {
    assert_eq!(READ_BUFFER, 1024);
    assert_eq!(POLL_MILLIS, 10);
}

#[test]
fn new_session_is_open() {
    let session = Session::new(7, 1);
    assert_eq!(session, Session { uuid: 7, server_uuid: 1, closed: false });
}

#[test]
fn what_was_read_goes_to_the_server() {
    let mut session = Session::new(7, 1);
    let message = submitted(session.step(Event::Read(b"scan".to_vec())));
    assert_eq!(message.author, 7);
    assert_eq!(message.target, 1);
    assert_eq!(message.data, b"scan".to_vec());
    assert!(!session.closed);
}

#[test]
fn bytes_that_are_no_text_go_to_the_server_as_they_are() {
    let mut session = Session::new(7, 1);
    let message = submitted(session.step(Event::Read(vec![0xff, 0x00, 0xc3])));
    assert_eq!(message.data, vec![0xff, 0x00, 0xc3]);
}

#[test]
fn requests_keep_their_order() {
    let mut session = Session::new(9, 2);
    let first = submitted(session.step(Event::Read(b"forward".to_vec())));
    let second = submitted(session.step(Event::Read(b"dig".to_vec())));
    assert_eq!(first.data, b"forward".to_vec());
    assert_eq!(second.data, b"dig".to_vec());
}

#[test]
fn an_empty_read_ends_the_connection() {
    let mut session = Session::new(7, 1);
    let message = closing(session.step(Event::Read(Vec::new())));
    assert_eq!(message.author, 7);
    assert_eq!(message.target, 1);
    assert_eq!(message.data, b"disconnect".to_vec());
    assert!(session.closed);
}

#[test]
fn a_failed_read_ends_the_connection() {
    let mut session = Session::new(7, 1);
    let message = closing(session.step(Event::ReadFailed));
    assert_eq!(message.data, b"disconnect".to_vec());
    assert!(session.closed);
}

#[test]
fn a_failed_write_ends_the_connection() {
    let mut session = Session::new(7, 1);
    let message = closing(session.step(Event::WriteFailed));
    assert_eq!((message.author, message.target), (7, 1));
    assert_eq!(message.data, b"disconnect".to_vec());
    assert!(session.closed);
}

#[test]
fn waiting_changes_nothing() {
    let mut session = Session::new(7, 1);
    for event in [Event::ReadBlocked, Event::WriteBlocked, Event::NoReply, Event::Written(5), Event::Written(0)] {
        assert!(matches!(session.step(event), Action::Idle));
        assert_eq!(session, Session::new(7, 1));
    }
}

#[test]
fn an_answer_for_this_connection_is_written() {
    let mut session = Session::new(7, 1);
    let reply = Message { author: 1, target: 7, data: b"login successful".to_vec() };
    match session.step(Event::Reply(reply)) {
        Action::Write(data) => assert_eq!(data, b"login successful".to_vec()),
        other => panic!("not a write: {:?}", other),
    }
    assert!(!session.closed);
}

#[test]
fn an_answer_for_another_connection_is_dropped() {
    let mut session = Session::new(7, 1);
    let reply = Message { author: 1, target: 8, data: b"login successful".to_vec() };
    assert!(matches!(session.step(Event::Reply(reply)), Action::Idle));
    let reply = Message { author: 7, target: 1, data: b"scan".to_vec() };
    assert!(matches!(session.step(Event::Reply(reply)), Action::Idle));
}

#[test]
fn a_closed_connection_stays_silent() {
    let mut session = Session::new(7, 1);
    let _ = session.step(Event::ReadFailed);
    let events = [
        Event::Read(b"scan".to_vec()),
        Event::Read(Vec::new()),
        Event::ReadFailed,
        Event::WriteFailed,
        Event::Reply(Message { author: 1, target: 7, data: b"x".to_vec() }),
        Event::NoReply,
    ];
    for event in events {
        assert!(matches!(session.step(event), Action::Idle));
        assert!(session.closed);
    }
}
