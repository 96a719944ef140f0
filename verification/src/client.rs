use vstd::prelude::*;

use crate::message::{Message, MessageView};
use crate::text::{
    split_once, split_once_spec, strip_prefix, strip_prefix_spec, trim, trim_end, trim_end_spec, trim_spec,
};

verus! {

/// What the terminal shows after a line of input was sent.
#[derive(Debug, Clone, Copy, PartialEq, Eq)]
pub enum Echo {
    /// Nothing is shown.
    Silent,
    /// The message sent is shown.
    Sent,
    /// The creation sent is shown.
    SentCreate,
    /// The leave sent is shown, then that the group was left.
    SentLeave,
}

/// The state of a terminal client: its user name and its active group.
pub struct ClientSession {
    username: String,
    group: String,
}

/// The mathematical value of a [`ClientSession`].
pub struct SessionView {
    pub username: Seq<char>,
    pub group: Seq<char>,
}

impl View for ClientSession {
    type V = SessionView;

    closed spec fn view(&self) -> SessionView {
        SessionView { username: self.username@, group: self.group@ }
    }
}

/// The message, the next session and the echo for one line of input: the
/// commands `/msg <group> <text>`, `/invite <group> <user>`, `/join <group>`,
/// `/create <group>` and `/leave <group>`, and any other line as text to the
/// active group.
pub open spec fn client_step(s: SessionView, line: Seq<char>) -> (SessionView, MessageView, Echo) {
    let input = trim_end_spec(line);
    let msg_parts = match strip_prefix_spec(input, "/msg "@) {
        Some(rest) => split_once_spec(rest, ' '),
        None => None,
    };
    let invite_parts = match strip_prefix_spec(input, "/invite "@) {
        Some(rest) => split_once_spec(rest, ' '),
        None => None,
    };
    if let Some((grp, text)) = msg_parts {
        (s, MessageView::Text { group: grp, from: s.username, content: text }, Echo::Silent)
    } else if let Some((grp, user)) = invite_parts {
        (s, MessageView::Invite { group: grp, user: user }, Echo::Sent)
    } else if let Some(grp) = strip_prefix_spec(input, "/join "@) {
        (
            SessionView { username: s.username, group: grp },
            MessageView::Join { username: s.username, group: grp },
            Echo::Sent,
        )
    } else if let Some(grp) = strip_prefix_spec(input, "/create "@) {
        (s, MessageView::Create { group: trim_spec(grp) }, Echo::SentCreate)
    } else if let Some(grp) = strip_prefix_spec(input, "/leave "@) {
        (
            SessionView { username: s.username, group: Seq::empty() },
            MessageView::Leave { group: grp },
            Echo::SentLeave,
        )
    } else {
        (s, MessageView::Text { group: s.group, from: s.username, content: input }, Echo::Sent)
    }
}

/// The owned copy of `s`.
fn owned(s: &str) -> (r: String)
    ensures
        r@ == s@,
{
    s.to_owned()
}

impl ClientSession {
    /// A session for the name typed at the prompt, trimmed, with no active group.
    pub fn new(typed_name: &str) -> (s: ClientSession)
        ensures
            s@.username == trim_spec(typed_name@),
            s@.group == Seq::<char>::empty(),
    {
        ClientSession { username: owned(trim(typed_name)), group: String::new() }
    }

    /// The session's user name.
    pub fn username(&self) -> (r: &String)
        ensures
            r@ == self@.username,
    {
        &self.username
    }

    /// The active group, empty where there is none.
    pub fn group(&self) -> (r: &String)
        ensures
            r@ == self@.group,
    {
        &self.group
    }

    /// The login that opens the session.
    pub fn login_message(&self) -> (m: Message)
        ensures
            m@ == (MessageView::Login { username: self@.username }),
    {
        Message::Login { username: self.username.clone() }
    }

    /// The message for one line of input, and what to show once it is sent.
    pub fn handle_input(&mut self, line: &str) -> (r: (Message, Echo))
        ensures
            final(self)@ == client_step(old(self)@, line@).0,
            r.0@ == client_step(old(self)@, line@).1,
            r.1 == client_step(old(self)@, line@).2,
    {
        let input = trim_end(line);
        if let Some(rest) = strip_prefix(input, "/msg ") {
            if let Some((grp, text)) = split_once(rest, ' ') {
                return (
                    Message::Text { group: owned(grp), from: self.username.clone(), content: owned(text) },
                    Echo::Silent,
                );
            }
        }
        if let Some(rest) = strip_prefix(input, "/invite ") {
            if let Some((grp, user)) = split_once(rest, ' ') {
                return (Message::Invite { group: owned(grp), user: owned(user) }, Echo::Sent);
            }
        }
        if let Some(grp) = strip_prefix(input, "/join ") {
            self.group = owned(grp);
            return (
                Message::Join { username: self.username.clone(), group: owned(grp) },
                Echo::Sent,
            );
        }
        if let Some(grp) = strip_prefix(input, "/create ") {
            return (Message::Create { group: owned(trim(grp)) }, Echo::SentCreate);
        }
        if let Some(grp) = strip_prefix(input, "/leave ") {
            self.group = String::new();
            return (Message::Leave { group: owned(grp) }, Echo::SentLeave);
        }
        (
            Message::Text { group: self.group.clone(), from: self.username.clone(), content: owned(input) },
            Echo::Sent,
        )
    }
}

/// A received message is a text that this user sent.
pub open spec fn is_own_text_spec(m: MessageView, username: Seq<char>) -> bool {
    m matches MessageView::Text { from, .. } && from == username
}

/// Whether a received message is a text that `username` sent, which the
/// terminal shows as sent rather than received.
pub fn is_own_text(m: &Message, username: &String) -> (b: bool)
    ensures
        b == is_own_text_spec(m@, username@),
{
    match m {
        Message::Text { from, .. } => *from == *username,
        _ => false,
    }
}

/// The text of a welcome line: the content where it is a text, `None` otherwise.
pub fn welcome_content(m: &Message) -> (r: Option<&String>)
    ensures
        r matches Some(c) ==> m@ matches MessageView::Text { content, .. } && c@ == content,
        r is None ==> !(m@ is Text),
{
    match m {
        Message::Text { content, .. } => Some(content),
        _ => None,
    }
}

/// A line that starts with none of the commands is sent, trailing whitespace
/// removed, as text to the active group, and leaves the session unchanged.
pub proof fn law_plain_text_goes_to_active_group(s: SessionView, line: Seq<char>)
    requires
        strip_prefix_spec(trim_end_spec(line), "/msg "@) is None,
        strip_prefix_spec(trim_end_spec(line), "/invite "@) is None,
        strip_prefix_spec(trim_end_spec(line), "/join "@) is None,
        strip_prefix_spec(trim_end_spec(line), "/create "@) is None,
        strip_prefix_spec(trim_end_spec(line), "/leave "@) is None,
    ensures
        client_step(s, line) == (
            s,
            MessageView::Text { group: s.group, from: s.username, content: trim_end_spec(line) },
            Echo::Sent,
        ),
{
}

/// After `/join <group>`, the session's active group is that group, and after
/// `/leave <group>` there is none.
pub proof fn law_join_and_leave_set_active_group(s: SessionView, line: Seq<char>, g: Seq<char>)
    requires
        strip_prefix_spec(trim_end_spec(line), "/msg "@) is None,
        strip_prefix_spec(trim_end_spec(line), "/invite "@) is None,
    ensures
        strip_prefix_spec(trim_end_spec(line), "/join "@) == Some(g) ==> client_step(s, line).0.group
            == g,
        strip_prefix_spec(trim_end_spec(line), "/join "@) is None && strip_prefix_spec(
            trim_end_spec(line),
            "/create "@,
        ) is None && strip_prefix_spec(trim_end_spec(line), "/leave "@) is Some ==> client_step(
            s,
            line,
        ).0.group.len() == 0,
        client_step(s, line).0.username == s.username,
{
}

/// The two words that follow `prefix` on the line `input`, where they are.
pub open spec fn two_args(input: Seq<char>, prefix: Seq<char>) -> Option<(Seq<char>, Seq<char>)> {
    match strip_prefix_spec(input, prefix) {
        Some(rest) => split_once_spec(rest, ' '),
        None => None,
    }
}

/// The first of those two words.
pub open spec fn first_arg(input: Seq<char>, prefix: Seq<char>) -> Seq<char> {
    match two_args(input, prefix) {
        Some((a, _)) => a,
        None => Seq::empty(),
    }
}

/// The second of those two words.
pub open spec fn second_arg(input: Seq<char>, prefix: Seq<char>) -> Seq<char> {
    match two_args(input, prefix) {
        Some((_, b)) => b,
        None => Seq::empty(),
    }
}

/// Each command sends what its line names, taken from the line itself
/// (trailing whitespace removed): `/msg <group> <text>` a text of this user
/// to that group, `/invite <group> <user>` that invitation, `/join <group>` a
/// join of this user to that group, which becomes the active one,
/// `/create <group>` a creation of that group trimmed, and `/leave <group>` a
/// leave of the named group, after which no group is active. The user name
/// never changes.
pub proof fn law_commands_send_what_they_name(s: SessionView, line: Seq<char>)
    ensures
        client_step(s, line).0.username == s.username,
        two_args(trim_end_spec(line), "/msg "@) is Some ==> client_step(s, line) == (
            s,
            MessageView::Text {
                group: first_arg(trim_end_spec(line), "/msg "@),
                from: s.username,
                content: second_arg(trim_end_spec(line), "/msg "@),
            },
            Echo::Silent,
        ),
        two_args(trim_end_spec(line), "/msg "@) is None && two_args(trim_end_spec(line), "/invite "@)
            is Some ==> client_step(s, line) == (
            s,
            MessageView::Invite {
                group: first_arg(trim_end_spec(line), "/invite "@),
                user: second_arg(trim_end_spec(line), "/invite "@),
            },
            Echo::Sent,
        ),
        two_args(trim_end_spec(line), "/msg "@) is None && two_args(trim_end_spec(line), "/invite "@)
            is None && strip_prefix_spec(trim_end_spec(line), "/join "@) is Some ==> {
            let g = strip_prefix_spec(trim_end_spec(line), "/join "@)->0;
            &&& client_step(s, line).0.group == g
            &&& client_step(s, line).1 == MessageView::Join { username: s.username, group: g }
        },
        two_args(trim_end_spec(line), "/msg "@) is None && two_args(trim_end_spec(line), "/invite "@)
            is None && strip_prefix_spec(trim_end_spec(line), "/join "@) is None && strip_prefix_spec(
            trim_end_spec(line),
            "/create "@,
        ) is Some ==> {
            &&& client_step(s, line).0 == s
            &&& client_step(s, line).1 == MessageView::Create {
                group: trim_spec(strip_prefix_spec(trim_end_spec(line), "/create "@)->0),
            }
        },
        two_args(trim_end_spec(line), "/msg "@) is None && two_args(trim_end_spec(line), "/invite "@)
            is None && strip_prefix_spec(trim_end_spec(line), "/join "@) is None && strip_prefix_spec(
            trim_end_spec(line),
            "/create "@,
        ) is None && strip_prefix_spec(trim_end_spec(line), "/leave "@) is Some ==> {
            &&& client_step(s, line).0.group.len() == 0
            &&& client_step(s, line).1 == MessageView::Leave {
                group: strip_prefix_spec(trim_end_spec(line), "/leave "@)->0,
            }
        },
{
}

} // verus!
