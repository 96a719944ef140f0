use vstd::prelude::*;

use crate::message::{Message, MessageView};
use crate::table::{
    append_line, contains_name, differs, entry_append, insert_name, keys_unique,
    has_key, lemma_entry_append_unique, lemma_filter_no_dup, lemma_key_index, lemma_set_insert_no_dup,
    lists_view, names_view, remove_name, set_insert, set_of, value_of,
};
use crate::text::{trim, trim_spec};

verus! {

/// The events of the graphical client: what the user does, and what the
/// server sends. The receiver that connecting hands over is kept by the
/// window around this state, not here.
#[derive(Debug, Clone)]
pub enum MessageGUI {
    LoginInput(String),
    LoginSubmit,
    CreateGroupPopup,
    GroupInputChanged(String),
    ConfirmCreateGroup,
    CancelCreateGroup,
    InvitePopup,
    InviteInputChanged(String),
    ConfirmInvite,
    CancelInvite,
    JoinGroup,
    LeaveGroup,
    SelectGroup(String),
    ChatInput(String),
    SendMessage,
    Received(Message),
}

/// What the graphical client asks to be done after an event. Once messages
/// are sent, the window feeds back `ChatInput` with an empty string.
#[derive(Debug)]
pub enum GuiCommand {
    Nothing,
    /// Connect to the server, then send the login of `username`.
    ConnectAndLogin { username: String },
    /// Send these messages, in order.
    Send(Vec<Message>),
}

/// The mathematical value of a [`GuiCommand`].
pub enum CommandView {
    Nothing,
    ConnectAndLogin { username: Seq<char> },
    Send(Seq<MessageView>),
}

impl View for GuiCommand {
    type V = CommandView;

    open spec fn view(&self) -> CommandView {
        match self {
            GuiCommand::Nothing => CommandView::Nothing,
            GuiCommand::ConnectAndLogin { username } => CommandView::ConnectAndLogin {
                username: username@,
            },
            GuiCommand::Send(v) => CommandView::Send(messages_view(v@)),
        }
    }
}

/// The mathematical value of the graphical client's state.
pub struct GuiState {
    pub username: Seq<char>,
    pub login_input: Seq<char>,
    pub current_group: Option<Seq<char>>,
    /// The groups listed in the sidebar, in the order they appeared.
    pub groups: Seq<Seq<char>>,
    /// The groups whose join was acknowledged.
    pub joined_groups: Seq<Seq<char>>,
    /// Each group with the lines of its conversation.
    pub messages: Seq<(Seq<char>, Seq<Seq<char>>)>,
    pub chat_input: Seq<char>,
    pub group_input: Seq<char>,
    pub invite_input: Seq<char>,
    pub creating_group: bool,
    pub inviting_user: bool,
}

impl GuiState {
    /// The sets hold no name twice, and each conversation appears once.
    pub open spec fn wf(self) -> bool {
        &&& self.groups.no_duplicates()
        &&& self.joined_groups.no_duplicates()
        &&& keys_unique(self.messages)
    }
}

/// The fields of the graphical client's state.
struct GuiFields {
    username: String,
    login_input: String,
    current_group: Option<String>,
    groups: Vec<String>,
    joined_groups: Vec<String>,
    messages: Vec<(String, Vec<String>)>,
    chat_input: String,
    group_input: String,
    invite_input: String,
    creating_group: bool,
    inviting_user: bool,
}

pub open spec fn opt_view(o: Option<String>) -> Option<Seq<char>> {
    match o {
        Some(s) => Some(s@),
        None => None,
    }
}

impl View for GuiFields {
    type V = GuiState;

    closed spec fn view(&self) -> GuiState {
        GuiState {
            username: self.username@,
            login_input: self.login_input@,
            current_group: opt_view(self.current_group),
            groups: names_view(self.groups@),
            joined_groups: names_view(self.joined_groups@),
            messages: lists_view(self.messages@),
            chat_input: self.chat_input@,
            group_input: self.group_input@,
            invite_input: self.invite_input@,
            creating_group: self.creating_group,
            inviting_user: self.inviting_user,
        }
    }
}

/// The state before anything happened: no user, no group, empty inputs.
pub open spec fn initial_gui() -> GuiState {
    GuiState {
        username: Seq::empty(),
        login_input: Seq::empty(),
        current_group: None,
        groups: Seq::empty(),
        joined_groups: Seq::empty(),
        messages: Seq::empty(),
        chat_input: Seq::empty(),
        group_input: Seq::empty(),
        invite_input: Seq::empty(),
        creating_group: false,
        inviting_user: false,
    }
}

/// How a text appears in a conversation.
pub open spec fn chat_line(from: Seq<char>, content: Seq<char>) -> Seq<char> {
    "<"@ + from + ">: "@ + content
}

/// The line added on an acknowledgement for a group already joined (see
/// [`on_received`]).
pub open spec fn joined_line() -> Seq<char> {
    "<system>: Sei entrato nel gruppo."@
}

/// How an error from the server appears in a conversation.
pub open spec fn error_line(reason: Seq<char>) -> Seq<char> {
    "<system>: ERRORE: "@ + reason
}

/// The state after the server sent `m`: a text of a group other than
/// "system" lists the group and adds a line to its conversation; an
/// invitation for this user into such a group lists it; an acknowledgement
/// marks the current group joined; an error adds a line to the current group.
///
/// The line "Sei entrato nel gruppo." is added on an acknowledgement only
/// where the current group was joined already. The client decides on the
/// result of inserting the group into the joined set, which reports a group
/// that was not there yet; that is how the client behaves, though the line
/// reads as if meant for the first acknowledgement.
pub open spec fn on_received(s: GuiState, m: MessageView) -> GuiState {
    match m {
        MessageView::Text { group, from, content } => {
            if group != "system"@ {
                GuiState {
                    groups: set_insert(s.groups, group),
                    messages: entry_append(s.messages, group, chat_line(from, content)),
                    ..s
                }
            } else {
                s
            }
        },
        MessageView::Invite { group, user } => {
            if user == s.username && group != "system"@ {
                GuiState { groups: set_insert(s.groups, group), ..s }
            } else {
                s
            }
        },
        MessageView::Ack => match s.current_group {
            Some(g) => GuiState {
                joined_groups: set_insert(s.joined_groups, g),
                messages: if s.joined_groups.contains(g) {
                    entry_append(s.messages, g, joined_line())
                } else {
                    s.messages
                },
                ..s
            },
            None => s,
        },
        MessageView::Error { reason } => match s.current_group {
            Some(g) => GuiState { messages: entry_append(s.messages, g, error_line(reason)), ..s },
            None => s,
        },
        _ => s,
    }
}

/// The state after event `e`, and what is to be done.
pub open spec fn gui_update(s: GuiState, e: MessageGUI) -> (GuiState, CommandView) {
    match e {
        MessageGUI::LoginInput(v) => (GuiState { login_input: v@, ..s }, CommandView::Nothing),
        MessageGUI::LoginSubmit => {
            let name = trim_spec(s.login_input);
            if name.len() > 0 {
                (GuiState { username: name, ..s }, CommandView::ConnectAndLogin { username: name })
            } else {
                (s, CommandView::Nothing)
            }
        },
        MessageGUI::SelectGroup(g) => (
            GuiState { current_group: Some(g@), ..s },
            CommandView::Nothing,
        ),
        MessageGUI::ChatInput(v) => (GuiState { chat_input: v@, ..s }, CommandView::Nothing),
        MessageGUI::SendMessage => match s.current_group {
            Some(g) => if s.joined_groups.contains(g) {
                (
                    GuiState { chat_input: Seq::empty(), ..s },
                    CommandView::Send(
                        seq![
                            MessageView::Text {
                                group: g,
                                from: s.username,
                                content: s.chat_input,
                            },
                        ],
                    ),
                )
            } else {
                (s, CommandView::Nothing)
            },
            None => (s, CommandView::Nothing),
        },
        MessageGUI::CreateGroupPopup => (
            GuiState { creating_group: true, group_input: Seq::empty(), ..s },
            CommandView::Nothing,
        ),
        MessageGUI::GroupInputChanged(v) => (
            GuiState { group_input: v@, ..s },
            CommandView::Nothing,
        ),
        MessageGUI::ConfirmCreateGroup => {
            let name = trim_spec(s.group_input);
            if name.len() > 0 {
                (
                    GuiState {
                        groups: set_insert(s.groups, name),
                        current_group: Some(name),
                        group_input: Seq::empty(),
                        creating_group: false,
                        ..s
                    },
                    CommandView::Send(
                        seq![
                            MessageView::Create { group: name },
                            MessageView::Join { username: s.username, group: name },
                        ],
                    ),
                )
            } else {
                (s, CommandView::Nothing)
            }
        },
        MessageGUI::CancelCreateGroup | MessageGUI::CancelInvite => (
            GuiState {
                creating_group: false,
                inviting_user: false,
                group_input: Seq::empty(),
                invite_input: Seq::empty(),
                ..s
            },
            CommandView::Nothing,
        ),
        MessageGUI::InvitePopup => (
            GuiState { inviting_user: true, invite_input: Seq::empty(), ..s },
            CommandView::Nothing,
        ),
        MessageGUI::InviteInputChanged(v) => (
            GuiState { invite_input: v@, ..s },
            CommandView::Nothing,
        ),
        MessageGUI::ConfirmInvite => match s.current_group {
            Some(g) => {
                let user = trim_spec(s.invite_input);
                if user.len() > 0 {
                    (
                        GuiState { invite_input: Seq::empty(), inviting_user: false, ..s },
                        CommandView::Send(seq![MessageView::Invite { group: g, user: user }]),
                    )
                } else {
                    (s, CommandView::Nothing)
                }
            },
            None => (s, CommandView::Nothing),
        },
        MessageGUI::JoinGroup => match s.current_group {
            Some(g) => (
                s,
                CommandView::Send(seq![MessageView::Join { username: s.username, group: g }]),
            ),
            None => (s, CommandView::Nothing),
        },
        MessageGUI::LeaveGroup => match s.current_group {
            Some(g) => (
                GuiState {
                    joined_groups: s.joined_groups.filter(differs(g)),
                    groups: s.groups.filter(differs(g)),
                    current_group: None,
                    ..s
                },
                CommandView::Send(seq![MessageView::Leave { group: g }]),
            ),
            None => (s, CommandView::Nothing),
        },
        MessageGUI::Received(m) => (on_received(s, m@), CommandView::Nothing),
    }
}

/// The state of the graphical client, kept well formed at all times.
pub struct ChatGUI {
    fields: GuiFields,
}

impl View for ChatGUI {
    type V = GuiState;

    closed spec fn view(&self) -> GuiState {
        self.fields@
    }
}

impl ChatGUI {
    #[verifier::type_invariant]
    spec fn fields_wf(self) -> bool {
        self.fields@.wf()
    }

    /// The state before anything happened.
    pub fn new() -> (g: ChatGUI)
        ensures
            g@ == initial_gui(),
            g@.wf(),
    {
        ChatGUI { fields: GuiFields::new() }
    }

    /// The window's title.
    pub fn title(&self) -> (t: String)
        ensures
            t@ == "Chat GUI Client"@,
    {
        String::from_str("Chat GUI Client")
    }

    /// Applies event `e` and returns what is to be done.
    pub fn update(&mut self, e: MessageGUI) -> (cmd: GuiCommand)
        ensures
            old(self)@.wf(),
            final(self)@.wf(),
            final(self)@ == gui_update(old(self)@, e).0,
            cmd@ == gui_update(old(self)@, e).1,
    {
        proof {
            use_type_invariant(&*self);
        }
        let mut fields = GuiFields::new();
        std::mem::swap(&mut fields, &mut self.fields);
        let cmd = fields.update(e);
        self.fields = fields;
        cmd
    }

    /// What the window shows in this state.
    pub fn screen(&self) -> (sc: Screen)
        ensures
            self@.wf(),
            screen_shows(self@, sc),
    {
        proof {
            use_type_invariant(self);
        }
        self.fields.screen()
    }
}

/// The owned copy of `s`.
fn owned(s: &str) -> (r: String)
    ensures
        r@ == s@,
{
    s.to_owned()
}

/// The messages of `v`, each taken as its value.
pub open spec fn messages_view(v: Seq<Message>) -> Seq<MessageView> {
    v.map_values(|m: Message| m@)
}

/// A list of one message.
fn one(a: Message) -> (v: Vec<Message>)
    ensures
        messages_view(v@) == seq![a@],
{
    let mut v: Vec<Message> = Vec::new();
    v.push(a);
    assert(messages_view(v@) =~= seq![a@]);
    v
}

/// A list of two messages.
fn two(a: Message, b: Message) -> (v: Vec<Message>)
    ensures
        messages_view(v@) == seq![a@, b@],
{
    let mut v: Vec<Message> = Vec::new();
    v.push(a);
    v.push(b);
    assert(messages_view(v@) =~= seq![a@, b@]);
    v
}

/// Whether `g` is the server's own pseudo-group.
fn is_system(g: &String) -> (b: bool)
    ensures
        b == (g@ == "system"@),
{
    *g == String::from_str("system")
}

impl GuiFields {
    /// The state before anything happened.
    fn new() -> (g: GuiFields)
        ensures
            g@ == initial_gui(),
            g@.wf(),
    {
        let g = GuiFields {
            username: String::new(),
            login_input: String::new(),
            current_group: None,
            groups: Vec::new(),
            joined_groups: Vec::new(),
            messages: Vec::new(),
            chat_input: String::new(),
            group_input: String::new(),
            invite_input: String::new(),
            creating_group: false,
            inviting_user: false,
        };
        assert(g@.groups =~= Seq::<Seq<char>>::empty());
        assert(g@.joined_groups =~= Seq::<Seq<char>>::empty());
        assert(g@.messages =~= Seq::<(Seq<char>, Seq<Seq<char>>)>::empty());
        g
    }

    fn receive(&mut self, m: Message)
        requires
            old(self)@.wf(),
        ensures
            final(self)@.wf(),
            final(self)@ == on_received(old(self)@, m@),
    {
        match m {
            Message::Text { group, from, content } => {
                if !is_system(&group) {
                    proof {
                        lemma_entry_append_unique(
                            old(self)@.messages,
                            group@,
                            chat_line(from@, content@),
                        );
                    }
                    insert_name(&mut self.groups, &group);
                    let line = String::from_str("<").concat(from.as_str()).concat(">: ").concat(
                        content.as_str(),
                    );
                    append_line(&mut self.messages, &group, line);
                }
            },
            Message::Invite { group, user } => {
                if user == self.username && !is_system(&group) {
                    insert_name(&mut self.groups, &group);
                }
            },
            Message::Ack => {
                match &self.current_group {
                    Some(g) => {
                        let g = g.clone();
                        proof {
                            lemma_entry_append_unique(old(self)@.messages, g@, joined_line());
                        }
                        let was_joined = insert_name(&mut self.joined_groups, &g);
                        if !was_joined {
                            append_line(
                                &mut self.messages,
                                &g,
                                String::from_str("<system>: Sei entrato nel gruppo."),
                            );
                        }
                    },
                    None => {},
                }
            },
            Message::Error { reason } => {
                match &self.current_group {
                    Some(g) => {
                        let g = g.clone();
                        proof {
                            lemma_entry_append_unique(old(self)@.messages, g@, error_line(reason@));
                        }
                        let line = String::from_str("<system>: ERRORE: ").concat(reason.as_str());
                        append_line(&mut self.messages, &g, line);
                    },
                    None => {},
                }
            },
            _ => {},
        }
    }

    /// The fields' transition on event `e`.
    fn update(&mut self, e: MessageGUI) -> (cmd: GuiCommand)
        requires
            old(self)@.wf(),
        ensures
            final(self)@.wf(),
            final(self)@ == gui_update(old(self)@, e).0,
            cmd@ == gui_update(old(self)@, e).1,
    {
        match e {
            MessageGUI::LoginInput(v) => {
                self.login_input = v;
                GuiCommand::Nothing
            },
            MessageGUI::LoginSubmit => {
                let name = owned(trim(self.login_input.as_str()));
                if !name.as_str().is_empty() {
                    self.username = name.clone();
                    GuiCommand::ConnectAndLogin { username: name }
                } else {
                    GuiCommand::Nothing
                }
            },
            MessageGUI::SelectGroup(g) => {
                self.current_group = Some(g);
                GuiCommand::Nothing
            },
            MessageGUI::ChatInput(v) => {
                self.chat_input = v;
                GuiCommand::Nothing
            },
            MessageGUI::SendMessage => {
                match &self.current_group {
                    Some(g) => {
                        if contains_name(&self.joined_groups, g) {
                            let msg = Message::Text {
                                group: g.clone(),
                                from: self.username.clone(),
                                content: self.chat_input.clone(),
                            };
                            self.chat_input = String::new();
                            GuiCommand::Send(one(msg))
                        } else {
                            GuiCommand::Nothing
                        }
                    },
                    None => GuiCommand::Nothing,
                }
            },
            MessageGUI::CreateGroupPopup => {
                self.creating_group = true;
                self.group_input = String::new();
                GuiCommand::Nothing
            },
            MessageGUI::GroupInputChanged(v) => {
                self.group_input = v;
                GuiCommand::Nothing
            },
            MessageGUI::ConfirmCreateGroup => {
                let name = owned(trim(self.group_input.as_str()));
                if !name.as_str().is_empty() {
                    insert_name(&mut self.groups, &name);
                    self.current_group = Some(name.clone());
                    self.group_input = String::new();
                    self.creating_group = false;
                    GuiCommand::Send(
                        two(
                            Message::Create { group: name.clone() },
                            Message::Join { username: self.username.clone(), group: name },
                        ),
                    )
                } else {
                    GuiCommand::Nothing
                }
            },
            MessageGUI::CancelCreateGroup | MessageGUI::CancelInvite => {
                self.creating_group = false;
                self.inviting_user = false;
                self.group_input = String::new();
                self.invite_input = String::new();
                GuiCommand::Nothing
            },
            MessageGUI::InvitePopup => {
                self.inviting_user = true;
                self.invite_input = String::new();
                GuiCommand::Nothing
            },
            MessageGUI::InviteInputChanged(v) => {
                self.invite_input = v;
                GuiCommand::Nothing
            },
            MessageGUI::ConfirmInvite => {
                match &self.current_group {
                    Some(g) => {
                        let user = owned(trim(self.invite_input.as_str()));
                        if !user.as_str().is_empty() {
                            let group = g.clone();
                            self.invite_input = String::new();
                            self.inviting_user = false;
                            GuiCommand::Send(one(Message::Invite { group, user }))
                        } else {
                            GuiCommand::Nothing
                        }
                    },
                    None => GuiCommand::Nothing,
                }
            },
            MessageGUI::JoinGroup => {
                match &self.current_group {
                    Some(g) => {
                        GuiCommand::Send(
                            one(Message::Join { username: self.username.clone(), group: g.clone() }),
                        )
                    },
                    None => GuiCommand::Nothing,
                }
            },
            MessageGUI::LeaveGroup => {
                match &self.current_group {
                    Some(g) => {
                        let group = g.clone();
                        remove_name(&mut self.joined_groups, &group);
                        remove_name(&mut self.groups, &group);
                        self.current_group = None;
                        GuiCommand::Send(one(Message::Leave { group }))
                    },
                    None => GuiCommand::Nothing,
                }
            },
            MessageGUI::Received(m) => {
                self.receive(m);
                GuiCommand::Nothing
            },
        }
    }
}

// ---------------------------------------------------------------------------
// What the window shows
// ---------------------------------------------------------------------------

/// A button of the sidebar: its label and the group it selects.
#[derive(Debug, Clone)]
pub struct GroupButton {
    pub label: String,
    pub group: String,
}

/// The right-hand panel once a group is joined.
#[derive(Debug, Clone)]
pub struct JoinedPanel {
    /// The lines of the conversation, where it has any entry.
    pub history: Option<Vec<String>>,
    pub inviting_user: bool,
    pub invite_input: String,
    pub chat_input: String,
}

/// The right-hand panel of the current group.
#[derive(Debug, Clone)]
pub struct GroupPanel {
    pub title: String,
    /// `None` where the group is not joined yet, which shows a join button.
    pub joined: Option<JoinedPanel>,
}

/// The chat screen: sidebar and panel.
#[derive(Debug, Clone)]
pub struct ChatScreen {
    pub user_label: String,
    pub creating_group: bool,
    pub group_input: String,
    pub group_buttons: Vec<GroupButton>,
    pub panel: Option<GroupPanel>,
}

/// What the window shows: the login form until a name is set, then the chat.
#[derive(Debug, Clone)]
pub enum Screen {
    Login { login_input: String },
    Chat(ChatScreen),
}

/// The label of the sidebar button of `g`, marked where it is the current group.
pub open spec fn button_label(s: GuiState, g: Seq<char>) -> Seq<char> {
    if s.current_group == Some(g) {
        "> "@ + g
    } else {
        g
    }
}

/// `p` is the panel of the joined group `g`.
pub open spec fn joined_panel_shows(s: GuiState, g: Seq<char>, p: JoinedPanel) -> bool {
    &&& match value_of(s.messages, g) {
        Some(lines) => p.history matches Some(h) && names_view(h@) == lines,
        None => p.history is None,
    }
    &&& p.inviting_user == s.inviting_user
    &&& p.invite_input@ == s.invite_input
    &&& p.chat_input@ == s.chat_input
}

/// `p` is the panel of the current group `g`.
pub open spec fn panel_shows(s: GuiState, g: Seq<char>, p: GroupPanel) -> bool {
    &&& p.title@ == "Group: "@ + g
    &&& s.joined_groups.contains(g) <==> p.joined is Some
    &&& (p.joined matches Some(j) ==> joined_panel_shows(s, g, j))
}

/// `c` is the chat screen of state `s`.
pub open spec fn chat_screen_shows(s: GuiState, c: ChatScreen) -> bool {
    &&& c.user_label@ == "User: "@ + s.username
    &&& c.creating_group == s.creating_group
    &&& c.group_input@ == s.group_input
    &&& c.group_buttons@.len() == s.groups.len()
    &&& forall|i: int|
        0 <= i < s.groups.len() ==> (#[trigger] c.group_buttons@[i]).group@ == s.groups[i]
            && c.group_buttons@[i].label@ == button_label(s, s.groups[i])
    &&& match s.current_group {
        Some(g) => c.panel matches Some(p) && panel_shows(s, g, p),
        None => c.panel is None,
    }
}

/// `sc` is what the window shows in state `s`.
pub open spec fn screen_shows(s: GuiState, sc: Screen) -> bool {
    if s.username.len() == 0 {
        sc matches Screen::Login { login_input } && login_input@ == s.login_input
    } else {
        sc matches Screen::Chat(c) && chat_screen_shows(s, c)
    }
}

/// Copies of the strings of `v`.
fn copy_names(v: &Vec<String>) -> (r: Vec<String>)
    ensures
        names_view(r@) == names_view(v@),
{
    let mut r: Vec<String> = Vec::new();
    let mut i: usize = 0;
    while i < v.len()
        invariant
            i <= v@.len(),
            names_view(r@) == names_view(v@.take(i as int)),
        decreases v@.len() - i,
    {
        let ghost before = r@;
        r.push(v[i].clone());
        assert(names_view(r@) =~= names_view(before).push(v@[i as int]@));
        assert(names_view(v@.take(i + 1)) =~= names_view(v@.take(i as int)).push(v@[i as int]@));
        i = i + 1;
    }
    assert(v@.take(v@.len() as int) =~= v@);
    r
}

impl GuiFields {
    fn history_of(&self, g: &String) -> (r: Option<Vec<String>>)
        requires
            self@.wf(),
        ensures
            match value_of(self@.messages, g@) {
                Some(lines) => r matches Some(h) && names_view(h@) == lines,
                None => r is None,
            },
    {
        let mut i: usize = 0;
        while i < self.messages.len()
            invariant
                self@.wf(),
                i <= self.messages@.len(),
                forall|j: int| 0 <= j < i ==> (#[trigger] self@.messages[j]).0 != g@,
            decreases self.messages@.len() - i,
        {
            if self.messages[i].0 == *g {
                proof {
                    lemma_key_index(self@.messages, g@, i as int);
                }
                return Some(copy_names(&self.messages[i].1));
            }
            i = i + 1;
        }
        None
    }

    fn chat_screen(&self) -> (c: ChatScreen)
        requires
            self@.wf(),
        ensures
            chat_screen_shows(self@, c),
    {
        let mut buttons: Vec<GroupButton> = Vec::new();
        let mut i: usize = 0;
        while i < self.groups.len()
            invariant
                i <= self.groups@.len(),
                buttons@.len() == i,
                forall|k: int|
                    0 <= k < i ==> (#[trigger] buttons@[k]).group@ == self@.groups[k]
                        && buttons@[k].label@ == button_label(self@, self@.groups[k]),
            decreases self.groups@.len() - i,
        {
            let g = &self.groups[i];
            let current = match &self.current_group {
                Some(c) => *c == *g,
                None => false,
            };
            let label = if current {
                String::from_str("> ").concat(g.as_str())
            } else {
                g.clone()
            };
            buttons.push(GroupButton { label, group: g.clone() });
            i = i + 1;
        }
        let panel = match &self.current_group {
            Some(g) => {
                let joined = if contains_name(&self.joined_groups, g) {
                    Some(
                        JoinedPanel {
                            history: self.history_of(g),
                            inviting_user: self.inviting_user,
                            invite_input: self.invite_input.clone(),
                            chat_input: self.chat_input.clone(),
                        },
                    )
                } else {
                    None
                };
                Some(
                    GroupPanel {
                        title: String::from_str("Group: ").concat(g.as_str()),
                        joined,
                    },
                )
            },
            None => None,
        };
        ChatScreen {
            user_label: String::from_str("User: ").concat(self.username.as_str()),
            creating_group: self.creating_group,
            group_input: self.group_input.clone(),
            group_buttons: buttons,
            panel,
        }
    }

    /// What the window shows for these fields.
    fn screen(&self) -> (sc: Screen)
        requires
            self@.wf(),
        ensures
            screen_shows(self@, sc),
    {
        if self.username.as_str().is_empty() {
            Screen::Login { login_input: self.login_input.clone() }
        } else {
            Screen::Chat(self.chat_screen())
        }
    }
}

// ---------------------------------------------------------------------------
// Laws of the graphical client
// ---------------------------------------------------------------------------

/// Every event keeps the state well formed: no group listed or joined twice,
/// one conversation per group.
pub proof fn law_update_keeps_wf(s: GuiState, e: MessageGUI)
    requires
        s.wf(),
    ensures
        gui_update(s, e).0.wf(),
{
    match e {
        MessageGUI::ConfirmCreateGroup => {
            lemma_set_insert_no_dup(s.groups, trim_spec(s.group_input));
        },
        MessageGUI::LeaveGroup => {
            if let Some(g) = s.current_group {
                lemma_filter_no_dup(s.groups, differs(g));
                lemma_filter_no_dup(s.joined_groups, differs(g));
            }
        },
        MessageGUI::Received(m) => {
            match m@ {
                MessageView::Text { group, from, content } => {
                    lemma_set_insert_no_dup(s.groups, group);
                    lemma_entry_append_unique(s.messages, group, chat_line(from, content));
                },
                MessageView::Invite { group, user } => {
                    lemma_set_insert_no_dup(s.groups, group);
                },
                MessageView::Ack => {
                    if let Some(g) = s.current_group {
                        lemma_set_insert_no_dup(s.joined_groups, g);
                        lemma_entry_append_unique(s.messages, g, joined_line());
                    }
                },
                MessageView::Error { reason } => {
                    if let Some(g) = s.current_group {
                        lemma_entry_append_unique(s.messages, g, error_line(reason));
                    }
                },
                _ => {},
            }
        },
        _ => {},
    }
}

/// Leaving the current group takes it off the sidebar and the joined groups,
/// leaves no group current, and sends the leave.
pub proof fn law_leave_forgets_group(s: GuiState, g: Seq<char>)
    requires
        s.current_group == Some(g),
    ensures
        !gui_update(s, MessageGUI::LeaveGroup).0.groups.contains(g),
        !gui_update(s, MessageGUI::LeaveGroup).0.joined_groups.contains(g),
        gui_update(s, MessageGUI::LeaveGroup).0.current_group is None,
        gui_update(s, MessageGUI::LeaveGroup).1 == CommandView::Send(
            seq![MessageView::Leave { group: g }],
        ),
{
    let a = s.groups.filter(differs(g));
    let b = s.joined_groups.filter(differs(g));
    if a.contains(g) {
        let k = choose|k: int| 0 <= k < a.len() && a[k] == g;
        s.groups.lemma_filter_pred(differs(g), k);
    }
    if b.contains(g) {
        let k = choose|k: int| 0 <= k < b.len() && b[k] == g;
        s.joined_groups.lemma_filter_pred(differs(g), k);
    }
}

/// A text of a group adds its line to that group's conversation and to no
/// other one.
pub proof fn law_conversations_stay_separate(
    s: GuiState,
    g: Seq<char>,
    from: Seq<char>,
    content: Seq<char>,
    other: Seq<char>,
)
    requires
        s.wf(),
        g != "system"@,
        other != g,
    ensures
        set_of(on_received(s, MessageView::Text { group: g, from: from, content: content }).messages, g)
            == set_of(s.messages, g).push("<"@ + from + ">: "@ + content),
        set_of(
            on_received(s, MessageView::Text { group: g, from: from, content: content }).messages,
            other,
        ) == set_of(s.messages, other),
{
    lemma_entry_append_unique(s.messages, g, chat_line(from, content));
}

/// An invitation for this user into a group lists the group in the sidebar
/// without joining it.
pub proof fn law_invitation_lists_group(s: GuiState, g: Seq<char>)
    requires
        s.wf(),
        g != "system"@,
    ensures
        on_received(s, MessageView::Invite { group: g, user: s.username }).groups.contains(g),
        on_received(s, MessageView::Invite { group: g, user: s.username }).joined_groups
            == s.joined_groups,
{
    lemma_set_insert_no_dup(s.groups, g);
}

/// Texts are sent only to the current group, and only once it is joined.
pub proof fn law_texts_go_to_joined_current_group(s: GuiState, e: MessageGUI, i: int)
    requires
        gui_update(s, e).1 is Send,
        0 <= i < gui_update(s, e).1->Send_0.len(),
        gui_update(s, e).1->Send_0[i] is Text,
    ensures
        s.current_group == Some(gui_update(s, e).1->Send_0[i]->Text_group),
        s.joined_groups.contains(gui_update(s, e).1->Send_0[i]->Text_group),
{
}

/// Every group in play is listed: the current group and every joined group
/// appear in the sidebar.
pub open spec fn all_listed(s: GuiState) -> bool {
    &&& (s.current_group matches Some(g) ==> s.groups.contains(g))
    &&& forall|g: Seq<char>| s.joined_groups.contains(g) ==> s.groups.contains(g)
}

proof fn lemma_set_insert_keeps<T>(m: Seq<T>, x: T, y: T)
    requires
        m.contains(y),
    ensures
        set_insert(m, x).contains(y),
{
    let k = choose|k: int| 0 <= k < m.len() && m[k] == y;
    if !m.contains(x) {
        assert(m.push(x)[k] == y);
    }
}

/// The current group and the joined groups stay listed, whatever happens but
/// the selection of a group that is not listed; at the start nothing is in
/// play.
pub proof fn law_groups_in_play_stay_listed(s: GuiState, e: MessageGUI)
    requires
        s.wf(),
        all_listed(s),
        !(e matches MessageGUI::SelectGroup(g) && !s.groups.contains(g@)),
    ensures
        all_listed(initial_gui()),
        all_listed(gui_update(s, e).0),
{
    let t = gui_update(s, e).0;
    match e {
        MessageGUI::ConfirmCreateGroup => {
            let name = trim_spec(s.group_input);
            lemma_set_insert_no_dup(s.groups, name);
            assert forall|g: Seq<char>| t.joined_groups.contains(g) implies t.groups.contains(g) by {
                if name.len() > 0 {
                    lemma_set_insert_keeps(s.groups, name, g);
                }
            }
        },
        MessageGUI::LeaveGroup => {
            if let Some(c) = s.current_group {
                assert forall|g: Seq<char>| t.joined_groups.contains(g) implies t.groups.contains(g) by {
                    s.joined_groups.lemma_filter_contains_rev(differs(c), g);
                    let f = s.joined_groups.filter(differs(c));
                    let k = choose|k: int| 0 <= k < f.len() && f[k] == g;
                    s.joined_groups.lemma_filter_pred(differs(c), k);
                    let j = choose|j: int| 0 <= j < s.groups.len() && s.groups[j] == g;
                    s.groups.lemma_filter_contains(differs(c), j);
                }
            }
        },
        MessageGUI::Received(m) => {
            match m@ {
                MessageView::Text { group, from, content } => {
                    if group != "system"@ {
                        if let Some(c) = s.current_group {
                            lemma_set_insert_keeps(s.groups, group, c);
                        }
                        assert forall|g: Seq<char>| t.joined_groups.contains(g) implies t.groups.contains(g) by {
                            lemma_set_insert_keeps(s.groups, group, g);
                        }
                    }
                },
                MessageView::Invite { group, user } => {
                    if user == s.username && group != "system"@ {
                        if let Some(c) = s.current_group {
                            lemma_set_insert_keeps(s.groups, group, c);
                        }
                        assert forall|g: Seq<char>| t.joined_groups.contains(g) implies t.groups.contains(g) by {
                            lemma_set_insert_keeps(s.groups, group, g);
                        }
                    }
                },
                MessageView::Ack => {
                    if let Some(c) = s.current_group {
                        assert forall|g: Seq<char>| t.joined_groups.contains(g) implies t.groups.contains(g) by {
                            if g != c {
                                let k = choose|k: int|
                                    0 <= k < t.joined_groups.len() && t.joined_groups[k] == g;
                                if !s.joined_groups.contains(c) {
                                    assert(s.joined_groups.push(c)[k] == g);
                                }
                            }
                        }
                    }
                },
                _ => {},
            }
        },
        _ => {},
    }
}

/// `e` is the server's acknowledgement.
pub open spec fn is_ack_event(e: MessageGUI) -> bool {
    e matches MessageGUI::Received(m) && m@ is Ack
}

/// An acknowledgement joins the current group and no other: the joined
/// groups become those joined before and the current group; nothing is
/// listed or unlisted. With no current group it changes nothing joined.
pub proof fn law_ack_joins_current_group(s: GuiState, x: Seq<char>)
    requires
        s.wf(),
    ensures
        on_received(s, MessageView::Ack).groups == s.groups,
        on_received(s, MessageView::Ack).current_group == s.current_group,
        on_received(s, MessageView::Ack).joined_groups.contains(x) <==> (s.joined_groups.contains(x)
            || s.current_group == Some(x)),
{
    if let Some(g) = s.current_group {
        let t = on_received(s, MessageView::Ack).joined_groups;
        if !s.joined_groups.contains(g) {
            if t.contains(x) {
                let k = choose|k: int| 0 <= k < t.len() && t[k] == x;
                if k < s.joined_groups.len() {
                    assert(s.joined_groups[k] == x);
                }
            }
            if s.joined_groups.contains(x) {
                let k = choose|k: int| 0 <= k < s.joined_groups.len() && s.joined_groups[k] == x;
                assert(t[k] == x);
            }
            if x == g {
                assert(t[s.joined_groups.len() as int] == x);
            }
        }
    }
}

/// A group becomes joined only by the server's acknowledgement while it is
/// the current group.
pub proof fn law_joined_only_by_ack(s: GuiState, e: MessageGUI, x: Seq<char>)
    requires
        s.wf(),
        gui_update(s, e).0.joined_groups.contains(x),
        !s.joined_groups.contains(x),
    ensures
        is_ack_event(e),
        s.current_group == Some(x),
{
    match e {
        MessageGUI::LeaveGroup => {
            if let Some(g) = s.current_group {
                s.joined_groups.lemma_filter_contains_rev(differs(g), x);
            }
        },
        MessageGUI::Received(m) => {
            if m@ is Ack {
                law_ack_joins_current_group(s, x);
            }
        },
        _ => {},
    }
}

/// For a joined current group that has a conversation, the window shows the
/// whole conversation, in the order its lines came.
pub proof fn law_screen_shows_whole_history(s: GuiState, sc: Screen, g: Seq<char>)
    requires
        s.wf(),
        screen_shows(s, sc),
        s.username.len() > 0,
        s.current_group == Some(g),
        s.joined_groups.contains(g),
        has_key(s.messages, g),
    ensures
        sc is Chat,
        sc->Chat_0.panel is Some,
        sc->Chat_0.panel->Some_0.joined is Some,
        sc->Chat_0.panel->Some_0.joined->Some_0.history is Some,
        names_view(sc->Chat_0.panel->Some_0.joined->Some_0.history->Some_0@) == set_of(
            s.messages,
            g,
        ),
{
}

/// Sending a message sends exactly what was typed, as this user, to the
/// current group where it is joined, and clears what was typed; anywhere
/// else it does nothing.
pub proof fn law_send_message(s: GuiState)
    ensures
        (s.current_group matches Some(g) && s.joined_groups.contains(g)) ==> {
            let (t, cmd) = gui_update(s, MessageGUI::SendMessage);
            &&& cmd == CommandView::Send(
                seq![
                    MessageView::Text {
                        group: s.current_group->0,
                        from: s.username,
                        content: s.chat_input,
                    },
                ],
            )
            &&& t.chat_input.len() == 0
            &&& t.groups == s.groups
            &&& t.joined_groups == s.joined_groups
            &&& t.messages == s.messages
        },
        !(s.current_group matches Some(g) && s.joined_groups.contains(g)) ==> gui_update(
            s,
            MessageGUI::SendMessage,
        ) == (s, CommandView::Nothing),
{
}

/// Typing changes only the field typed into, and sends nothing.
pub proof fn law_typing_changes_only_its_field(s: GuiState, v: String)
    ensures
        gui_update(s, MessageGUI::LoginInput(v)) == (
            GuiState { login_input: v@, ..s },
            CommandView::Nothing,
        ),
        gui_update(s, MessageGUI::ChatInput(v)) == (
            GuiState { chat_input: v@, ..s },
            CommandView::Nothing,
        ),
        gui_update(s, MessageGUI::GroupInputChanged(v)) == (
            GuiState { group_input: v@, ..s },
            CommandView::Nothing,
        ),
        gui_update(s, MessageGUI::InviteInputChanged(v)) == (
            GuiState { invite_input: v@, ..s },
            CommandView::Nothing,
        ),
{
}

/// Logging in takes the typed name without surrounding whitespace; a blank
/// name changes nothing, any other is taken as this user's and connects.
pub proof fn law_login_submit(s: GuiState)
    ensures
        trim_spec(s.login_input).len() == 0 ==> gui_update(s, MessageGUI::LoginSubmit) == (
            s,
            CommandView::Nothing,
        ),
        trim_spec(s.login_input).len() > 0 ==> gui_update(s, MessageGUI::LoginSubmit) == (
            GuiState { username: trim_spec(s.login_input), ..s },
            CommandView::ConnectAndLogin { username: trim_spec(s.login_input) },
        ),
{
}

/// The sidebar lists every group, in order, under its own name, marked with
/// "> " where it is the current group; the user's name is shown after
/// "User: ".
pub proof fn law_screen_sidebar(s: GuiState, sc: Screen, i: int)
    requires
        screen_shows(s, sc),
        s.username.len() > 0,
        0 <= i < s.groups.len(),
    ensures
        sc is Chat,
        sc->Chat_0.user_label@ == "User: "@ + s.username,
        sc->Chat_0.group_buttons@.len() == s.groups.len(),
        sc->Chat_0.group_buttons@[i].group@ == s.groups[i],
        s.current_group == Some(s.groups[i]) ==> sc->Chat_0.group_buttons@[i].label@ == "> "@
            + s.groups[i],
        s.current_group != Some(s.groups[i]) ==> sc->Chat_0.group_buttons@[i].label@
            == s.groups[i],
{
    let c = sc->Chat_0;
    assert(c.group_buttons@[i].group@ == s.groups[i]);
}

/// An error from the server adds its reason, after "<system>: ERRORE: ", to
/// the current group's conversation and to no other; with no current group
/// it changes nothing.
pub proof fn law_error_goes_to_current_conversation(s: GuiState, r: Seq<char>, other: Seq<char>)
    requires
        s.wf(),
    ensures
        s.current_group is None ==> on_received(s, MessageView::Error { reason: r }) == s,
        s.current_group matches Some(g) ==> {
            let t = on_received(s, MessageView::Error { reason: r });
            &&& set_of(t.messages, g) == set_of(s.messages, g).push("<system>: ERRORE: "@ + r)
            &&& (other != g ==> set_of(t.messages, other) == set_of(s.messages, other))
            &&& t.groups == s.groups
            &&& t.joined_groups == s.joined_groups
        },
{
    if let Some(g) = s.current_group {
        lemma_entry_append_unique(s.messages, g, error_line(r));
    }
}

/// Confirming a new group takes the typed name without surrounding
/// whitespace: a blank name changes nothing; any other is listed, becomes
/// current, closes the form, and its creation and this user's join are sent.
pub proof fn law_confirm_create_group(s: GuiState)
    requires
        s.wf(),
    ensures
        trim_spec(s.group_input).len() == 0 ==> gui_update(s, MessageGUI::ConfirmCreateGroup) == (
            s,
            CommandView::Nothing,
        ),
        trim_spec(s.group_input).len() > 0 ==> {
            let name = trim_spec(s.group_input);
            let (t, cmd) = gui_update(s, MessageGUI::ConfirmCreateGroup);
            &&& t.groups.contains(name)
            &&& t.current_group == Some(name)
            &&& !t.creating_group
            &&& t.group_input.len() == 0
            &&& t.joined_groups == s.joined_groups
            &&& cmd == CommandView::Send(
                seq![
                    MessageView::Create { group: name },
                    MessageView::Join { username: s.username, group: name },
                ],
            )
        },
{
    lemma_set_insert_no_dup(s.groups, trim_spec(s.group_input));
}

/// Confirming an invitation invites the typed name, without surrounding
/// whitespace, into the current group and closes the form; with a blank name
/// or no current group it changes nothing.
pub proof fn law_confirm_invite(s: GuiState)
    ensures
        (s.current_group is None || trim_spec(s.invite_input).len() == 0) ==> gui_update(
            s,
            MessageGUI::ConfirmInvite,
        ) == (s, CommandView::Nothing),
        (s.current_group matches Some(g) && trim_spec(s.invite_input).len() > 0) ==> {
            let (t, cmd) = gui_update(s, MessageGUI::ConfirmInvite);
            &&& cmd == CommandView::Send(
                seq![
                    MessageView::Invite {
                        group: s.current_group->0,
                        user: trim_spec(s.invite_input),
                    },
                ],
            )
            &&& t == GuiState { invite_input: Seq::empty(), inviting_user: false, ..s }
        },
{
}

} // verus!
