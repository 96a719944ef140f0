use ruggine::client::{is_own_text, welcome_content, ClientSession, Echo};
use ruggine::message::Message;

fn s(x: &str) -> String {
    x.to_string()
}

#[test]
fn session_trims_the_typed_name() {
    let session = ClientSession::new("  alice \n");
    assert_eq!(session.username(), "alice");
    assert_eq!(session.group(), "");
    assert_eq!(session.login_message(), Message::Login { username: s("alice") });
}

#[test]
fn msg_command_sends_text_silently() {
    let mut session = ClientSession::new("alice");
    assert_eq!(
        session.handle_input("/msg G1 hello world\n"),
        (Message::Text { group: s("G1"), from: s("alice"), content: s("hello world") }, Echo::Silent)
    );
    assert_eq!(session.group(), "");
}

#[test]
fn invite_command() {
    let mut session = ClientSession::new("alice");
    assert_eq!(
        session.handle_input("/invite G2 bob"),
        (Message::Invite { group: s("G2"), user: s("bob") }, Echo::Sent)
    );
}

#[test]
fn join_command_sets_active_group() {
    let mut session = ClientSession::new("bob");
    assert_eq!(
        session.handle_input("/join G2"),
        (Message::Join { username: s("bob"), group: s("G2") }, Echo::Sent)
    );
    assert_eq!(session.group(), "G2");
    assert_eq!(
        session.handle_input("ciao a tutti"),
        (Message::Text { group: s("G2"), from: s("bob"), content: s("ciao a tutti") }, Echo::Sent)
    );
}

#[test]
fn create_command_trims_the_group() {
    let mut session = ClientSession::new("alice");
    assert_eq!(
        session.handle_input("/create   G1  "),
        (Message::Create { group: s("G1") }, Echo::SentCreate)
    );
    assert_eq!(session.group(), "");
}

#[test]
fn leave_command_clears_active_group() {
    let mut session = ClientSession::new("charlie");
    session.handle_input("/join G2");
    assert_eq!(
        session.handle_input("/leave G2"),
        (Message::Leave { group: s("G2") }, Echo::SentLeave)
    );
    assert_eq!(session.group(), "");
}

#[test]
fn incomplete_commands_fall_back_to_text() {
    let mut session = ClientSession::new("alice");
    session.handle_input("/join G1");
    assert_eq!(
        session.handle_input("/msg G1"),
        (Message::Text { group: s("G1"), from: s("alice"), content: s("/msg G1") }, Echo::Sent)
    );
    assert_eq!(
        session.handle_input("/invite bob"),
        (Message::Text { group: s("G1"), from: s("alice"), content: s("/invite bob") }, Echo::Sent)
    );
    assert_eq!(
        session.handle_input("/join"),
        (Message::Text { group: s("G1"), from: s("alice"), content: s("/join") }, Echo::Sent)
    );
}

#[test]
fn text_without_active_group() {
    let mut session = ClientSession::new("alice");
    assert_eq!(
        session.handle_input("hello   "),
        (Message::Text { group: s(""), from: s("alice"), content: s("hello") }, Echo::Sent)
    );
}

#[test]
fn own_texts_are_recognised() {
    let mine = Message::Text { group: s("G1"), from: s("alice"), content: s("x") };
    let theirs = Message::Text { group: s("G1"), from: s("bob"), content: s("x") };
    assert!(is_own_text(&mine, &s("alice")));
    assert!(!is_own_text(&theirs, &s("alice")));
    assert!(!is_own_text(&Message::Ack, &s("alice")));
}

#[test]
fn welcome_line_content() {
    let help = Message::Text { group: s("system"), from: s("server"), content: s("/create <gruppo>") };
    assert_eq!(welcome_content(&help), Some(&s("/create <gruppo>")));
    assert_eq!(welcome_content(&Message::Ack), None);
}
