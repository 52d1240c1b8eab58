use chat_app::session::{Action, Event, Session};
use chat_app::wire::{relay, Incoming, Message};

fn line(text: &str) -> Event {
    Event::Inbound(Incoming::Line(String::from(text)))
}

fn active(name: &str) -> Session {
    Session::Active { username: String::from(name) }
}

#[test]
fn new_session_is_accepted() {
    let session = Session::new();
    assert_eq!(session, Session::Accepted);
    assert_eq!(session.username(), None);
    assert!(!session.is_active());
    assert!(!session.is_closed());
}

#[test]
fn first_line_is_the_username_and_is_welcomed() {
    let mut session = Session::new();
    let action = session.step(line("alice\n"));
    assert_eq!(action, Action::Send(String::from("Welcome to the chat, alice!\n")));
    assert_eq!(session, Session::Named { username: String::from("alice") });
    assert_eq!(session.username(), Some("alice"));
    assert!(!session.is_active());
}

#[test]
fn username_is_trimmed() {
    let mut session = Session::new();
    let action = session.step(line("  bob smith \r\n"));
    assert_eq!(action, Action::Send(String::from("Welcome to the chat, bob smith!\n")));
    assert_eq!(session.username(), Some("bob smith"));
}

#[test]
fn empty_username_is_accepted() {
    let mut session = Session::new();
    let action = session.step(line("\n"));
    assert_eq!(action, Action::Send(String::from("Welcome to the chat, !\n")));
    assert_eq!(session.username(), Some(""));
    assert_eq!(session.step(Event::Written(true)), Action::Idle);
    assert!(session.is_active());
}

#[test]
fn eof_before_the_name_closes_silently() {
    let mut session = Session::new();
    assert_eq!(session.step(Event::Inbound(Incoming::Eof)), Action::Close { announce: false });
    assert!(session.is_closed());
}

#[test]
fn read_error_before_the_name_closes_silently() {
    let mut session = Session::new();
    assert_eq!(session.step(Event::Inbound(Incoming::Failed)), Action::Close { announce: false });
    assert!(session.is_closed());
}

#[test]
fn welcome_written_makes_the_session_active() {
    let mut session = Session::new();
    session.step(line("alice\n"));
    assert_eq!(session.step(Event::Written(true)), Action::Idle);
    assert_eq!(session, active("alice"));
    assert!(session.is_active());
    assert_eq!(session.username(), Some("alice"));
}

#[test]
fn welcome_write_failure_closes_silently() {
    let mut session = Session::new();
    session.step(line("alice\n"));
    assert_eq!(session.step(Event::Written(false)), Action::Close { announce: false });
    assert!(session.is_closed());
    assert_eq!(session.username(), None);
}

#[test]
fn active_session_publishes_lines_with_its_name() {
    let mut session = active("alice");
    let action = session.step(line("hello\n"));
    assert_eq!(
        action,
        Action::Publish(Message {
            text: String::from("alice: hello\n"),
            sender: String::from("alice"),
        })
    );
    assert_eq!(session, active("alice"));
}

#[test]
fn published_text_is_trimmed() {
    let mut session = active("bob");
    assert_eq!(session.step(line("   hi  there \r\n")), Action::Publish(relay("bob", "hi  there")));
}

#[test]
fn a_line_whose_newline_was_stripped_is_published_too() {
    let mut session = active("bob");
    assert_eq!(session.step(line("bye")), Action::Publish(relay("bob", "bye")));
}

#[test]
fn blank_lines_are_not_published() {
    let mut session = active("alice");
    assert_eq!(session.step(line("   \n")), Action::Idle);
    assert_eq!(session.step(line("\n")), Action::Idle);
    assert_eq!(session.step(line("")), Action::Idle);
    assert_eq!(session.step(line("\t\r\n")), Action::Idle);
    assert_eq!(session, active("alice"));
}

#[test]
fn messages_of_others_are_written_verbatim() {
    let mut session = active("alice");
    let action = session.step(Event::Delivery(relay("bob", "hello")));
    assert_eq!(action, Action::Send(String::from("bob: hello\n")));
    let odd = Message { text: String::from("  raw bytes "), sender: String::from("carol") };
    assert_eq!(session.step(Event::Delivery(odd)), Action::Send(String::from("  raw bytes ")));
    assert_eq!(session, active("alice"));
}

#[test]
fn own_messages_are_not_echoed() {
    let mut session = active("alice");
    assert_eq!(session.step(Event::Delivery(relay("alice", "hello"))), Action::Idle);
    assert_eq!(session, active("alice"));
}

#[test]
fn sender_tag_decides_not_the_text() {
    let mut session = active("alice");
    let forged = Message { text: String::from("alice: forged\n"), sender: String::from("mallory") };
    assert_eq!(session.step(Event::Delivery(forged)), Action::Send(String::from("alice: forged\n")));
    let tagged = Message { text: String::from("bob: hi\n"), sender: String::from("alice") };
    assert_eq!(session.step(Event::Delivery(tagged)), Action::Idle);
}

#[test]
fn eof_ends_an_active_session_with_a_notice() {
    let mut session = active("alice");
    assert_eq!(session.step(Event::Inbound(Incoming::Eof)), Action::Close { announce: true });
    assert!(session.is_closed());
}

#[test]
fn read_error_ends_an_active_session_with_a_notice() {
    let mut session = active("alice");
    assert_eq!(session.step(Event::Inbound(Incoming::Failed)), Action::Close { announce: true });
    assert!(session.is_closed());
}

#[test]
fn write_error_ends_an_active_session_with_a_notice() {
    let mut session = active("alice");
    assert_eq!(session.step(Event::Delivery(relay("bob", "x"))), Action::Send(String::from("bob: x\n")));
    assert_eq!(session.step(Event::Written(false)), Action::Close { announce: true });
    assert!(session.is_closed());
}

#[test]
fn successful_write_keeps_the_session_active() {
    let mut session = active("alice");
    assert_eq!(session.step(Event::Written(true)), Action::Idle);
    assert_eq!(session, active("alice"));
}

#[test]
fn closed_session_ignores_everything() {
    let mut session = Session::Closed;
    assert_eq!(session.step(line("hello\n")), Action::Idle);
    assert_eq!(session.step(Event::Inbound(Incoming::Eof)), Action::Idle);
    assert_eq!(session.step(Event::Delivery(relay("bob", "x"))), Action::Idle);
    assert_eq!(session.step(Event::Written(true)), Action::Idle);
    assert_eq!(session.step(Event::Written(false)), Action::Idle);
    assert_eq!(session, Session::Closed);
}

#[test]
fn events_a_state_does_not_wait_for_change_nothing() {
    let mut session = Session::new();
    assert_eq!(session.step(Event::Delivery(relay("bob", "x"))), Action::Idle);
    assert_eq!(session.step(Event::Written(true)), Action::Idle);
    assert_eq!(session.step(Event::Written(false)), Action::Idle);
    assert_eq!(session, Session::Accepted);
    session.step(line("alice\n"));
    assert_eq!(session.step(line("too early\n")), Action::Idle);
    assert_eq!(session.step(Event::Inbound(Incoming::Eof)), Action::Idle);
    assert_eq!(session.step(Event::Delivery(relay("bob", "x"))), Action::Idle);
    assert_eq!(session, Session::Named { username: String::from("alice") });
}

#[test]
fn username_stays_the_same_for_the_whole_session() {
    let mut session = Session::new();
    session.step(line("alice\n"));
    session.step(Event::Written(true));
    session.step(line("bob\n"));
    session.step(Event::Delivery(relay("carol", "dave")));
    session.step(Event::Written(true));
    assert_eq!(session.username(), Some("alice"));
}
