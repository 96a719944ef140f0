use ruggine::message::Message;
use ruggine::server::{ChatServer, Outgoing};

fn s(x: &str) -> String {
    x.to_string()
}

fn login(name: &str) -> Message {
    Message::Login { username: s(name) }
}

fn create(g: &str) -> Message {
    Message::Create { group: s(g) }
}

fn join(u: &str, g: &str) -> Message {
    Message::Join { username: s(u), group: s(g) }
}

fn invite(g: &str, u: &str) -> Message {
    Message::Invite { group: s(g), user: s(u) }
}

fn text(g: &str, from: &str, content: &str) -> Message {
    Message::Text { group: s(g), from: s(from), content: s(content) }
}

fn leave(g: &str) -> Message {
    Message::Leave { group: s(g) }
}

fn to(c: u64, msg: Message) -> Outgoing {
    Outgoing { to: c, msg }
}

const HELP: &str = "/create <gruppo>\n /invite <gruppo> <user>\n/join <gruppo>\n/leave <gruppo>\n/msg <gruppo> <testo>";

fn help(c: u64) -> Outgoing {
    to(c, text("system", "server", HELP))
}

const ALICE: u64 = 1;
const BOB: u64 = 2;
const CHARLIE: u64 = 3;

#[test]
fn login_sends_the_command_list() {
    let mut srv = ChatServer::new();
    assert_eq!(srv.handle_message(ALICE, login("alice")), vec![help(ALICE)]);
}

#[test]
fn create_makes_the_creator_a_member() {
    let mut srv = ChatServer::new();
    srv.handle_message(ALICE, login("alice"));
    assert_eq!(srv.handle_message(ALICE, create("G1")), vec![to(ALICE, Message::Ack)]);
    assert_eq!(
        srv.handle_message(ALICE, text("G1", "alice", "ciao")),
        vec![to(ALICE, text("G1", "alice", "ciao"))]
    );
}

#[test]
fn create_without_login_is_acknowledged_but_changes_nothing() {
    let mut srv = ChatServer::new();
    assert_eq!(srv.handle_message(ALICE, create("G1")), vec![to(ALICE, Message::Ack)]);
    srv.handle_message(ALICE, login("alice"));
    assert_eq!(
        srv.handle_message(ALICE, text("G1", "alice", "x")),
        vec![to(ALICE, Message::Error { reason: s("Impossibile inviare: non sei membro del gruppo 'G1'") })]
    );
}

#[test]
fn join_without_invitation_is_refused() {
    let mut srv = ChatServer::new();
    srv.handle_message(ALICE, login("alice"));
    srv.handle_message(BOB, login("bob"));
    srv.handle_message(ALICE, create("G1"));
    assert_eq!(
        srv.handle_message(BOB, join("bob", "G1")),
        vec![to(BOB, Message::Error { reason: s("Impossibile unirsi: non sei stato invitato al gruppo 'G1'") })]
    );
}

#[test]
fn invite_is_forwarded_and_join_is_acknowledged() {
    let mut srv = ChatServer::new();
    srv.handle_message(ALICE, login("alice"));
    srv.handle_message(BOB, login("bob"));
    srv.handle_message(ALICE, create("G1"));
    assert_eq!(srv.handle_message(ALICE, invite("G1", "bob")), vec![to(BOB, invite("G1", "bob"))]);
    assert_eq!(srv.handle_message(BOB, join("bob", "G1")), vec![to(BOB, Message::Ack)]);
    assert_eq!(
        srv.handle_message(BOB, text("G1", "bob", "ciao a tutti")),
        vec![to(ALICE, text("G1", "bob", "ciao a tutti")), to(BOB, text("G1", "bob", "ciao a tutti"))]
    );
}

#[test]
fn invite_by_non_member_is_refused() {
    let mut srv = ChatServer::new();
    srv.handle_message(ALICE, login("alice"));
    srv.handle_message(BOB, login("bob"));
    srv.handle_message(ALICE, create("G1"));
    assert_eq!(
        srv.handle_message(BOB, invite("G1", "charlie")),
        vec![to(BOB, Message::Error { reason: s("Autorizzazione negata: non sei membro del gruppo 'G1'") })]
    );
    assert_eq!(
        srv.handle_message(ALICE, invite("G2", "bob")),
        vec![to(ALICE, Message::Error { reason: s("Autorizzazione negata: non sei membro del gruppo 'G2'") })]
    );
}

#[test]
fn invitation_of_an_absent_user_waits_for_login() {
    let mut srv = ChatServer::new();
    srv.handle_message(ALICE, login("alice"));
    srv.handle_message(ALICE, create("G1"));
    srv.handle_message(ALICE, create("G2"));
    assert_eq!(srv.handle_message(ALICE, invite("G2", "bob")), vec![]);
    assert_eq!(srv.handle_message(ALICE, invite("G1", "bob")), vec![]);
    assert_eq!(
        srv.handle_message(BOB, login("bob")),
        vec![help(BOB), to(BOB, invite("G1", "bob")), to(BOB, invite("G2", "bob"))]
    );
    assert_eq!(srv.handle_message(BOB, join("bob", "G2")), vec![to(BOB, Message::Ack)]);
}

#[test]
fn text_from_non_member_is_refused() {
    let mut srv = ChatServer::new();
    srv.handle_message(ALICE, login("alice"));
    srv.handle_message(BOB, login("bob"));
    srv.handle_message(ALICE, create("G1"));
    assert_eq!(
        srv.handle_message(BOB, text("G1", "bob", "hi")),
        vec![to(BOB, Message::Error { reason: s("Impossibile inviare: non sei membro del gruppo 'G1'") })]
    );
    assert_eq!(
        srv.handle_message(BOB, text("nogroup", "bob", "hi")),
        vec![to(BOB, Message::Error { reason: s("Impossibile inviare: non sei membro del gruppo 'nogroup'") })]
    );
}

#[test]
fn text_is_checked_against_the_named_sender() {
    // The check is on the connection registered for `from`, whoever sends it.
    let mut srv = ChatServer::new();
    srv.handle_message(ALICE, login("alice"));
    srv.handle_message(BOB, login("bob"));
    srv.handle_message(ALICE, create("G1"));
    assert_eq!(
        srv.handle_message(BOB, text("G1", "alice", "spoof")),
        vec![to(ALICE, text("G1", "alice", "spoof"))]
    );
}

#[test]
fn client_acks_and_errors_are_ignored() {
    let mut srv = ChatServer::new();
    srv.handle_message(ALICE, login("alice"));
    assert_eq!(srv.handle_message(ALICE, Message::Ack), vec![]);
    assert_eq!(srv.handle_message(ALICE, Message::Error { reason: s("x") }), vec![]);
}

#[test]
fn leave_of_unknown_connection_names_someone() {
    let mut srv = ChatServer::new();
    srv.handle_message(ALICE, login("alice"));
    srv.handle_message(ALICE, create("G1"));
    assert_eq!(
        srv.handle_message(BOB, leave("G1")),
        vec![to(ALICE, text("G1", "system", "qualcuno ha lasciato il gruppo")), to(BOB, Message::Ack)]
    );
    assert_eq!(srv.handle_message(BOB, leave("G9")), vec![to(BOB, Message::Ack)]);
}

// The terminal scenario of the manual tests: three users, a leave, a refused
// rejoin, a new invitation and a rejoin.
#[test]
fn leave_refused_rejoin_and_reinvite_scenario() {
    let mut srv = ChatServer::new();
    srv.handle_message(ALICE, login("alice"));
    srv.handle_message(BOB, login("bob"));
    srv.handle_message(CHARLIE, login("charlie"));
    srv.handle_message(ALICE, create("G2"));
    assert_eq!(srv.handle_message(ALICE, invite("G2", "bob")), vec![to(BOB, invite("G2", "bob"))]);
    assert_eq!(
        srv.handle_message(ALICE, invite("G2", "charlie")),
        vec![to(CHARLIE, invite("G2", "charlie"))]
    );
    assert_eq!(srv.handle_message(BOB, join("bob", "G2")), vec![to(BOB, Message::Ack)]);
    assert_eq!(srv.handle_message(CHARLIE, join("charlie", "G2")), vec![to(CHARLIE, Message::Ack)]);
    assert_eq!(
        srv.handle_message(ALICE, text("G2", "alice", "ciao a tutti")),
        vec![
            to(ALICE, text("G2", "alice", "ciao a tutti")),
            to(BOB, text("G2", "alice", "ciao a tutti")),
            to(CHARLIE, text("G2", "alice", "ciao a tutti")),
        ]
    );
    assert_eq!(
        srv.handle_message(CHARLIE, leave("G2")),
        vec![
            to(ALICE, text("G2", "system", "charlie ha lasciato il gruppo")),
            to(BOB, text("G2", "system", "charlie ha lasciato il gruppo")),
            to(CHARLIE, Message::Ack),
        ]
    );
    assert_eq!(
        srv.handle_message(CHARLIE, join("charlie", "G2")),
        vec![to(CHARLIE, Message::Error { reason: s("Impossibile unirsi: non sei stato invitato al gruppo 'G2'") })]
    );
    assert_eq!(
        srv.handle_message(BOB, invite("G2", "charlie")),
        vec![to(CHARLIE, invite("G2", "charlie"))]
    );
    assert_eq!(srv.handle_message(CHARLIE, join("charlie", "G2")), vec![to(CHARLIE, Message::Ack)]);
    assert_eq!(
        srv.handle_message(CHARLIE, text("G2", "charlie", "sono tornato!")),
        vec![
            to(ALICE, text("G2", "charlie", "sono tornato!")),
            to(BOB, text("G2", "charlie", "sono tornato!")),
            to(CHARLIE, text("G2", "charlie", "sono tornato!")),
        ]
    );
}

// Three users; alice leaves; bob and charlie go on, alice gets nothing more.
#[test]
fn member_who_left_receives_nothing_more() {
    let mut srv = ChatServer::new();
    srv.handle_message(ALICE, login("alice"));
    srv.handle_message(BOB, login("bob"));
    srv.handle_message(CHARLIE, login("charlie"));
    srv.handle_message(ALICE, create("G2"));
    srv.handle_message(ALICE, invite("G2", "bob"));
    srv.handle_message(ALICE, invite("G2", "charlie"));
    srv.handle_message(BOB, join("bob", "G2"));
    srv.handle_message(CHARLIE, join("charlie", "G2"));
    srv.handle_message(ALICE, leave("G2"));
    assert_eq!(
        srv.handle_message(BOB, text("G2", "bob", "ancora qui")),
        vec![to(BOB, text("G2", "bob", "ancora qui")), to(CHARLIE, text("G2", "bob", "ancora qui"))]
    );
}

#[test]
fn joining_twice_keeps_one_membership() {
    let mut srv = ChatServer::new();
    srv.handle_message(ALICE, login("alice"));
    srv.handle_message(ALICE, create("G1"));
    assert_eq!(srv.handle_message(ALICE, join("alice", "G1")), vec![to(ALICE, Message::Ack)]);
    assert_eq!(
        srv.handle_message(ALICE, text("G1", "alice", "x")),
        vec![to(ALICE, text("G1", "alice", "x"))]
    );
}

#[test]
fn separate_groups_keep_separate_members() {
    let mut srv = ChatServer::new();
    srv.handle_message(ALICE, login("alice"));
    srv.handle_message(CHARLIE, login("charlie"));
    srv.handle_message(ALICE, create("G1"));
    srv.handle_message(ALICE, create("Solo"));
    srv.handle_message(ALICE, invite("Solo", "charlie"));
    srv.handle_message(CHARLIE, join("charlie", "Solo"));
    assert_eq!(
        srv.handle_message(ALICE, text("G1", "alice", "a")),
        vec![to(ALICE, text("G1", "alice", "a"))]
    );
    assert_eq!(
        srv.handle_message(ALICE, text("Solo", "alice", "b")),
        vec![to(ALICE, text("Solo", "alice", "b")), to(CHARLIE, text("Solo", "alice", "b"))]
    );
}

#[test]
fn create_of_a_group_with_members_grants_nothing() {
    let mut srv = ChatServer::new();
    srv.handle_message(ALICE, login("alice"));
    srv.handle_message(BOB, login("bob"));
    srv.handle_message(ALICE, create("G1"));
    assert_eq!(srv.handle_message(BOB, create("G1")), vec![to(BOB, Message::Ack)]);
    assert_eq!(
        srv.handle_message(BOB, text("G1", "bob", "dentro?")),
        vec![to(BOB, Message::Error { reason: s("Impossibile inviare: non sei membro del gruppo 'G1'") })]
    );
    assert_eq!(
        srv.handle_message(BOB, join("bob", "G1")),
        vec![to(BOB, Message::Error { reason: s("Impossibile unirsi: non sei stato invitato al gruppo 'G1'") })]
    );
}

#[test]
fn leaver_cannot_come_back_by_creating_the_group() {
    let mut srv = ChatServer::new();
    srv.handle_message(ALICE, login("alice"));
    srv.handle_message(CHARLIE, login("charlie"));
    srv.handle_message(ALICE, create("G2"));
    srv.handle_message(ALICE, invite("G2", "charlie"));
    srv.handle_message(CHARLIE, join("charlie", "G2"));
    srv.handle_message(CHARLIE, leave("G2"));
    assert_eq!(srv.handle_message(CHARLIE, create("G2")), vec![to(CHARLIE, Message::Ack)]);
    assert_eq!(
        srv.handle_message(ALICE, text("G2", "alice", "solo io")),
        vec![to(ALICE, text("G2", "alice", "solo io"))]
    );
}

#[test]
fn group_left_empty_can_be_created_again() {
    let mut srv = ChatServer::new();
    srv.handle_message(ALICE, login("alice"));
    srv.handle_message(BOB, login("bob"));
    srv.handle_message(ALICE, create("G1"));
    srv.handle_message(ALICE, leave("G1"));
    assert_eq!(srv.handle_message(BOB, create("G1")), vec![to(BOB, Message::Ack)]);
    assert_eq!(
        srv.handle_message(BOB, text("G1", "bob", "mio")),
        vec![to(BOB, text("G1", "bob", "mio"))]
    );
}
