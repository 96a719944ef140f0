use ruggine::gui::{ChatGUI, GuiCommand, MessageGUI, Screen};
use ruggine::message::Message;

fn s(x: &str) -> String {
    x.to_string()
}

fn sent(cmd: GuiCommand) -> Vec<Message> {
    match cmd {
        GuiCommand::Send(v) => v,
        other => panic!("expected messages to send, got {:?}", other),
    }
}

fn logged_in(name: &str) -> ChatGUI {
    let mut gui = ChatGUI::new();
    gui.update(MessageGUI::LoginInput(format!("  {}  ", name)));
    match gui.update(MessageGUI::LoginSubmit) {
        GuiCommand::ConnectAndLogin { username } => assert_eq!(username, name),
        other => panic!("expected a connection, got {:?}", other),
    }
    gui
}

fn chat(gui: &ChatGUI) -> ruggine::gui::ChatScreen {
    match gui.screen() {
        Screen::Chat(c) => c,
        other => panic!("expected the chat screen, got {:?}", other),
    }
}

#[test]
fn title_is_fixed() {
    assert_eq!(ChatGUI::new().title(), "Chat GUI Client");
}

#[test]
fn blank_login_does_nothing() {
    let mut gui = ChatGUI::new();
    gui.update(MessageGUI::LoginInput(s("   ")));
    assert!(matches!(gui.update(MessageGUI::LoginSubmit), GuiCommand::Nothing));
    assert!(matches!(gui.screen(), Screen::Login { login_input } if login_input == "   "));
}

#[test]
fn login_shows_the_chat_screen() {
    let gui = logged_in("alice");
    let c = chat(&gui);
    assert_eq!(c.user_label, "User: alice");
    assert!(c.group_buttons.is_empty());
    assert!(c.panel.is_none());
}

#[test]
fn create_group_sends_create_and_join() {
    let mut gui = logged_in("alice");
    gui.update(MessageGUI::CreateGroupPopup);
    assert!(chat(&gui).creating_group);
    gui.update(MessageGUI::GroupInputChanged(s(" G1 ")));
    assert_eq!(
        sent(gui.update(MessageGUI::ConfirmCreateGroup)),
        vec![Message::Create { group: s("G1") }, Message::Join { username: s("alice"), group: s("G1") }]
    );
    let c = chat(&gui);
    assert!(!c.creating_group);
    assert_eq!(c.group_buttons.len(), 1);
    assert_eq!(c.group_buttons[0].label, "> G1");
    assert_eq!(c.group_buttons[0].group, "G1");
    let panel = c.panel.unwrap();
    assert_eq!(panel.title, "Group: G1");
    assert!(panel.joined.is_none());
}

#[test]
fn ack_marks_the_group_joined_and_send_works() {
    let mut gui = logged_in("alice");
    gui.update(MessageGUI::GroupInputChanged(s("G1")));
    gui.update(MessageGUI::ConfirmCreateGroup);
    gui.update(MessageGUI::ChatInput(s("early")));
    assert!(matches!(gui.update(MessageGUI::SendMessage), GuiCommand::Nothing));
    gui.update(MessageGUI::Received(Message::Ack));
    gui.update(MessageGUI::ChatInput(s("ciao")));
    assert_eq!(
        sent(gui.update(MessageGUI::SendMessage)),
        vec![Message::Text { group: s("G1"), from: s("alice"), content: s("ciao") }]
    );
    let joined = chat(&gui).panel.unwrap().joined.unwrap();
    assert_eq!(joined.chat_input, "");
    assert!(joined.history.is_none());
}

#[test]
fn second_ack_adds_the_joined_line() {
    let mut gui = logged_in("alice");
    gui.update(MessageGUI::SelectGroup(s("G1")));
    gui.update(MessageGUI::Received(Message::Ack));
    gui.update(MessageGUI::Received(Message::Ack));
    let joined = chat(&gui).panel.unwrap().joined.unwrap();
    assert_eq!(joined.history, Some(vec![s("<system>: Sei entrato nel gruppo.")]));
}

#[test]
fn received_texts_stay_in_their_conversations() {
    let mut gui = logged_in("alice");
    gui.update(MessageGUI::Received(Message::Text { group: s("G1"), from: s("bob"), content: s("uno") }));
    gui.update(MessageGUI::Received(Message::Text { group: s("G2"), from: s("charlie"), content: s("due") }));
    gui.update(MessageGUI::Received(Message::Text { group: s("system"), from: s("server"), content: s("help") }));
    let c = chat(&gui);
    let groups: Vec<String> = c.group_buttons.iter().map(|b| b.group.clone()).collect();
    assert_eq!(groups, vec![s("G1"), s("G2")]);
    gui.update(MessageGUI::SelectGroup(s("G2")));
    gui.update(MessageGUI::Received(Message::Ack));
    let joined = chat(&gui).panel.unwrap().joined.unwrap();
    assert_eq!(joined.history, Some(vec![s("<charlie>: due")]));
}

#[test]
fn invitation_lists_the_group_without_joining() {
    let mut gui = logged_in("bob");
    gui.update(MessageGUI::Received(Message::Invite { group: s("G1"), user: s("bob") }));
    gui.update(MessageGUI::Received(Message::Invite { group: s("G9"), user: s("carl") }));
    let c = chat(&gui);
    assert_eq!(c.group_buttons.len(), 1);
    assert_eq!(c.group_buttons[0].label, "G1");
    gui.update(MessageGUI::SelectGroup(s("G1")));
    assert!(chat(&gui).panel.unwrap().joined.is_none());
    assert_eq!(
        sent(gui.update(MessageGUI::JoinGroup)),
        vec![Message::Join { username: s("bob"), group: s("G1") }]
    );
}

#[test]
fn error_goes_to_the_current_conversation() {
    let mut gui = logged_in("bob");
    gui.update(MessageGUI::SelectGroup(s("G1")));
    gui.update(MessageGUI::Received(Message::Error { reason: s("no") }));
    gui.update(MessageGUI::Received(Message::Ack));
    let joined = chat(&gui).panel.unwrap().joined.unwrap();
    assert_eq!(joined.history, Some(vec![s("<system>: ERRORE: no")]));
}

#[test]
fn invite_user_flow() {
    let mut gui = logged_in("alice");
    gui.update(MessageGUI::SelectGroup(s("G1")));
    gui.update(MessageGUI::Received(Message::Ack));
    gui.update(MessageGUI::InvitePopup);
    assert!(chat(&gui).panel.unwrap().joined.unwrap().inviting_user);
    gui.update(MessageGUI::InviteInputChanged(s("  ")));
    assert!(matches!(gui.update(MessageGUI::ConfirmInvite), GuiCommand::Nothing));
    gui.update(MessageGUI::InviteInputChanged(s(" bob ")));
    assert_eq!(
        sent(gui.update(MessageGUI::ConfirmInvite)),
        vec![Message::Invite { group: s("G1"), user: s("bob") }]
    );
    assert!(!chat(&gui).panel.unwrap().joined.unwrap().inviting_user);
}

#[test]
fn cancel_closes_both_forms() {
    let mut gui = logged_in("alice");
    gui.update(MessageGUI::CreateGroupPopup);
    gui.update(MessageGUI::GroupInputChanged(s("G")));
    gui.update(MessageGUI::InvitePopup);
    gui.update(MessageGUI::CancelInvite);
    let c = chat(&gui);
    assert!(!c.creating_group);
    assert_eq!(c.group_input, "");
}

#[test]
fn leave_removes_the_group_from_the_list() {
    let mut gui = logged_in("alice");
    gui.update(MessageGUI::GroupInputChanged(s("G1")));
    gui.update(MessageGUI::ConfirmCreateGroup);
    gui.update(MessageGUI::Received(Message::Ack));
    assert_eq!(sent(gui.update(MessageGUI::LeaveGroup)), vec![Message::Leave { group: s("G1") }]);
    let c = chat(&gui);
    assert!(c.group_buttons.is_empty());
    assert!(c.panel.is_none());
    assert!(matches!(gui.update(MessageGUI::LeaveGroup), GuiCommand::Nothing));
}

#[test]
fn current_and_joined_groups_stay_listed() {
    let mut gui = logged_in("alice");
    gui.update(MessageGUI::GroupInputChanged(s("G1")));
    gui.update(MessageGUI::ConfirmCreateGroup);
    gui.update(MessageGUI::Received(Message::Ack));
    gui.update(MessageGUI::Received(Message::Text { group: s("G2"), from: s("bob"), content: s("x") }));
    let c = chat(&gui);
    let groups: Vec<String> = c.group_buttons.iter().map(|b| b.group.clone()).collect();
    assert_eq!(groups, vec![s("G1"), s("G2")]);
    assert_eq!(c.group_buttons[0].label, "> G1");
    assert!(c.panel.unwrap().joined.is_some());
}
