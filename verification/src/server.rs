use vstd::prelude::*;

use crate::message::{Message, MessageView};
use crate::table::{
    contains_conn, contains_name, differs, entry_insert, entry_remove, has_key, key_index,
    keys_unique, lemma_entry_insert_wf, lists_view, lemma_entry_remove_wf, lemma_key_index,
    lemma_set_insert_no_dup, lemma_upsert_unique, names_view, set_insert, set_of, sets_wf, upsert,
    value_of,
    without_conn, without_name,
};

verus! {

/// The first name registered for connection `c`, in registration order.
pub open spec fn name_of_conn(users: Seq<(Seq<char>, u64)>, c: u64) -> Option<Seq<char>>
    decreases users.len(),
{
    if users.len() == 0 {
        None
    } else if users[0].1 == c {
        Some(users[0].0)
    } else {
        name_of_conn(users.drop_first(), c)
    }
}

/// The groups, in table order, whose invitation set holds `user`.
pub open spec fn invited_groups(
    invites: Seq<(Seq<char>, Seq<Seq<char>>)>,
    user: Seq<char>,
) -> Seq<Seq<char>>
    decreases invites.len(),
{
    if invites.len() == 0 {
        Seq::empty()
    } else {
        let rest = invited_groups(invites.drop_last(), user);
        if invites.last().1.contains(user) {
            rest.push(invites.last().0)
        } else {
            rest
        }
    }
}

// ---------------------------------------------------------------------------
// The server's state
// ---------------------------------------------------------------------------

/// The mathematical value of the server's tables.
pub struct ServerState {
    /// Registered user names and the connection each was last registered from.
    pub users: Seq<(Seq<char>, u64)>,
    /// Each group with its member connections.
    pub groups: Seq<(Seq<char>, Seq<u64>)>,
    /// Each group with the names invited into it.
    pub invites: Seq<(Seq<char>, Seq<Seq<char>>)>,
}

impl ServerState {
    /// The invariant of the tables: every key once, every set without repeats.
    pub open spec fn wf(self) -> bool {
        &&& keys_unique(self.users)
        &&& sets_wf(self.groups)
        &&& sets_wf(self.invites)
    }

    /// `user` is invited into `group`.
    pub open spec fn is_invited(self, group: Seq<char>, user: Seq<char>) -> bool {
        set_of(self.invites, group).contains(user)
    }

    /// The member connections of `group`, in the order they joined.
    pub open spec fn members(self, group: Seq<char>) -> Seq<u64> {
        set_of(self.groups, group)
    }

    /// Connection `c` is a member of `group`.
    pub open spec fn is_member(self, group: Seq<char>, c: u64) -> bool {
        self.members(group).contains(c)
    }
}

/// A server with no user, group or invitation.
pub open spec fn empty_state() -> ServerState {
    ServerState { users: Seq::empty(), groups: Seq::empty(), invites: Seq::empty() }
}

/// The tables of the chat server: who is registered from which connection,
/// which connections belong to which group, and who is invited where.
struct ServerTables {
    users: Vec<(String, u64)>,
    groups: Vec<(String, Vec<u64>)>,
    invites: Vec<(String, Vec<String>)>,
}

pub open spec fn user_entry_view(e: (String, u64)) -> (Seq<char>, u64) {
    (e.0@, e.1)
}

pub open spec fn group_entry_view(e: (String, Vec<u64>)) -> (Seq<char>, Seq<u64>) {
    (e.0@, e.1@)
}

impl View for ServerTables {
    type V = ServerState;

    closed spec fn view(&self) -> ServerState {
        ServerState {
            users: self.users@.map_values(|e: (String, u64)| user_entry_view(e)),
            groups: self.groups@.map_values(|e: (String, Vec<u64>)| group_entry_view(e)),
            invites: lists_view(self.invites@),
        }
    }
}

/// The chat server: its tables, kept well formed at all times.
pub struct ChatServer {
    tables: ServerTables,
}

impl View for ChatServer {
    type V = ServerState;

    closed spec fn view(&self) -> ServerState {
        self.tables@
    }
}

impl ChatServer {
    #[verifier::type_invariant]
    spec fn tables_wf(self) -> bool {
        self.tables@.wf()
    }

    /// A server with no user, group or invitation.
    pub fn new() -> (s: ChatServer)
        ensures
            s@ == empty_state(),
            s@.wf(),
    {
        ChatServer { tables: ServerTables::new() }
    }

    /// Applies message `msg`, received from connection `conn`, to the tables and
    /// returns the messages to write, in order, each with its connection.
    pub fn handle_message(&mut self, conn: u64, msg: Message) -> (out: Vec<Outgoing>)
        ensures
            old(self)@.wf(),
            final(self)@.wf(),
            final(self)@ == step(old(self)@, conn, msg@).0,
            outgoing_view(out@) == step(old(self)@, conn, msg@).1,
    {
        proof {
            use_type_invariant(&*self);
        }
        let mut tables = ServerTables::new();
        std::mem::swap(&mut tables, &mut self.tables);
        let out = tables.handle_message(conn, msg);
        self.tables = tables;
        out
    }
}

impl ServerTables {
    /// A server with no user, group or invitation.
    fn new() -> (s: ServerTables)
        ensures
            s@ == empty_state(),
            s@.wf(),
    {
        let s = ServerTables { users: Vec::new(), groups: Vec::new(), invites: Vec::new() };
        assert(s@.users =~= Seq::<(Seq<char>, u64)>::empty());
        assert(s@.groups =~= Seq::<(Seq<char>, Seq<u64>)>::empty());
        assert(s@.invites =~= Seq::<(Seq<char>, Seq<Seq<char>>)>::empty());
        s
    }

    /// The position of the registration of `name`.
    fn find_user(&self, name: &String) -> (r: Option<usize>)
        requires
            self@.wf(),
        ensures
            r matches Some(i) ==> i < self@.users.len() && self@.users[i as int].0 == name@
                && value_of(self@.users, name@) == Some(self@.users[i as int].1),
            r is None ==> !has_key(self@.users, name@) && value_of(self@.users, name@) is None,
    {
        let mut i: usize = 0;
        while i < self.users.len()
            invariant
                self@.wf(),
                i <= self.users@.len(),
                forall|j: int| 0 <= j < i ==> (#[trigger] self@.users[j]).0 != name@,
            decreases self.users@.len() - i,
        {
            if self.users[i].0 == *name {
                proof {
                    lemma_key_index(self@.users, name@, i as int);
                }
                return Some(i);
            }
            i = i + 1;
        }
        None
    }

    /// The position of the group `g` among the member sets.
    fn find_group(&self, g: &String) -> (r: Option<usize>)
        requires
            self@.wf(),
        ensures
            r matches Some(i) ==> i < self@.groups.len() && self@.groups[i as int].0 == g@
                && key_index(self@.groups, g@) == i && has_key(self@.groups, g@),
            r is None ==> !has_key(self@.groups, g@),
    {
        let mut i: usize = 0;
        while i < self.groups.len()
            invariant
                self@.wf(),
                i <= self.groups@.len(),
                forall|j: int| 0 <= j < i ==> (#[trigger] self@.groups[j]).0 != g@,
            decreases self.groups@.len() - i,
        {
            if self.groups[i].0 == *g {
                proof {
                    lemma_key_index(self@.groups, g@, i as int);
                }
                return Some(i);
            }
            i = i + 1;
        }
        None
    }

    /// The position of the group `g` among the invitation sets.
    fn find_invites(&self, g: &String) -> (r: Option<usize>)
        requires
            self@.wf(),
        ensures
            r matches Some(i) ==> i < self@.invites.len() && self@.invites[i as int].0 == g@
                && key_index(self@.invites, g@) == i && has_key(self@.invites, g@),
            r is None ==> !has_key(self@.invites, g@),
    {
        let mut i: usize = 0;
        while i < self.invites.len()
            invariant
                self@.wf(),
                i <= self.invites@.len(),
                forall|j: int| 0 <= j < i ==> (#[trigger] self@.invites[j]).0 != g@,
            decreases self.invites@.len() - i,
        {
            if self.invites[i].0 == *g {
                proof {
                    lemma_key_index(self@.invites, g@, i as int);
                }
                return Some(i);
            }
            i = i + 1;
        }
        None
    }

    /// The position of the first registration from connection `c`.
    fn conn_name(&self, c: u64) -> (r: Option<usize>)
        ensures
            r matches Some(i) ==> i < self@.users.len() && self@.users[i as int].1 == c
                && name_of_conn(self@.users, c) == Some(self@.users[i as int].0),
            r is None ==> name_of_conn(self@.users, c) is None,
    {
        let mut i: usize = 0;
        assert(self@.users.skip(0) == self@.users);
        while i < self.users.len()
            invariant
                i <= self.users@.len(),
                name_of_conn(self@.users, c) == name_of_conn(self@.users.skip(i as int), c),
            decreases self.users@.len() - i,
        {
            assert(self@.users.skip(i as int).drop_first() == self@.users.skip(i + 1));
            assert(self@.users.skip(i as int)[0] == self@.users[i as int]);
            if self.users[i].1 == c {
                return Some(i);
            }
            i = i + 1;
        }
        None
    }

    /// Registers `name` as coming from connection `c`.
    fn register(&mut self, name: &String, c: u64)
        requires
            old(self)@.wf(),
        ensures
            final(self)@.wf(),
            final(self)@.users == upsert(old(self)@.users, name@, c),
            final(self)@.groups == old(self)@.groups,
            final(self)@.invites == old(self)@.invites,
    {
        proof {
            lemma_upsert_unique(old(self)@.users, name@, c);
        }
        match self.find_user(name) {
            Some(i) => {
                proof {
                    lemma_key_index(old(self)@.users, name@, i as int);
                }
                let n = self.users[i].0.clone();
                self.users.set(i, (n, c));
                assert(self@.users =~= old(self)@.users.update(i as int, (name@, c)));
            },
            None => {
                self.users.push((name.clone(), c));
                assert(self@.users =~= old(self)@.users.push((name@, c)));
            },
        }
        assert(self@.groups =~= old(self)@.groups);
        assert(self@.invites =~= old(self)@.invites);
    }

    /// Adds connection `c` to the members of `g`, making the group where needed.
    fn add_member(&mut self, g: &String, c: u64)
        requires
            old(self)@.wf(),
        ensures
            final(self)@.wf(),
            final(self)@.users == old(self)@.users,
            final(self)@.groups == entry_insert(old(self)@.groups, g@, c),
            final(self)@.invites == old(self)@.invites,
    {
        proof {
            lemma_entry_insert_wf(old(self)@.groups, g@, c);
        }
        match self.find_group(g) {
            Some(i) => {
                if !contains_conn(&self.groups[i].1, c) {
                    let (name, mut members) = self.groups.remove(i);
                    members.push(c);
                    self.groups.insert(i, (name, members));
                }
                assert(self@.groups =~= old(self)@.groups.update(
                    i as int,
                    (g@, set_insert(old(self)@.groups[i as int].1, c)),
                ));
            },
            None => {
                let mut members: Vec<u64> = Vec::new();
                members.push(c);
                self.groups.push((g.clone(), members));
                assert(self@.groups =~= old(self)@.groups.push((g@, seq![c])));
            },
        }
        assert(self@.users =~= old(self)@.users);
        assert(self@.invites =~= old(self)@.invites);
    }

    /// Takes connection `c` out of the members of `g`, where the group exists.
    fn remove_member(&mut self, g: &String, c: u64)
        requires
            old(self)@.wf(),
        ensures
            final(self)@.wf(),
            final(self)@.users == old(self)@.users,
            final(self)@.groups == entry_remove(old(self)@.groups, g@, c),
            final(self)@.invites == old(self)@.invites,
    {
        proof {
            lemma_entry_remove_wf(old(self)@.groups, g@, c);
        }
        match self.find_group(g) {
            Some(i) => {
                let (name, members) = self.groups.remove(i);
                let kept = without_conn(&members, c);
                self.groups.insert(i, (name, kept));
                assert(self@.groups =~= old(self)@.groups.update(
                    i as int,
                    (g@, old(self)@.groups[i as int].1.filter(differs(c))),
                ));
            },
            None => {},
        }
        assert(self@.users =~= old(self)@.users);
        assert(self@.invites =~= old(self)@.invites);
    }

    /// Adds `u` to the names invited into `g`.
    fn add_invite(&mut self, g: &String, u: &String)
        requires
            old(self)@.wf(),
        ensures
            final(self)@.wf(),
            final(self)@.users == old(self)@.users,
            final(self)@.groups == old(self)@.groups,
            final(self)@.invites == entry_insert(old(self)@.invites, g@, u@),
    {
        proof {
            lemma_entry_insert_wf(old(self)@.invites, g@, u@);
        }
        match self.find_invites(g) {
            Some(i) => {
                if !contains_name(&self.invites[i].1, u) {
                    let (name, mut names) = self.invites.remove(i);
                    let ghost before = names@;
                    names.push(u.clone());
                    assert(names_view(names@) =~= names_view(before).push(u@));
                    self.invites.insert(i, (name, names));
                }
                assert(self@.invites =~= old(self)@.invites.update(
                    i as int,
                    (g@, set_insert(old(self)@.invites[i as int].1, u@)),
                ));
            },
            None => {
                let mut names: Vec<String> = Vec::new();
                names.push(u.clone());
                assert(names_view(names@) =~= seq![u@]);
                self.invites.push((g.clone(), names));
                assert(self@.invites =~= old(self)@.invites.push((g@, seq![u@])));
            },
        }
        assert(self@.users =~= old(self)@.users);
        assert(self@.groups =~= old(self)@.groups);
    }

    /// Takes `u` out of the names invited into `g`, where `g` has invitations.
    fn remove_invite(&mut self, g: &String, u: &String)
        requires
            old(self)@.wf(),
        ensures
            final(self)@.wf(),
            final(self)@.users == old(self)@.users,
            final(self)@.groups == old(self)@.groups,
            final(self)@.invites == entry_remove(old(self)@.invites, g@, u@),
    {
        proof {
            lemma_entry_remove_wf(old(self)@.invites, g@, u@);
        }
        match self.find_invites(g) {
            Some(i) => {
                let (name, names) = self.invites.remove(i);
                let kept = without_name(&names, u);
                self.invites.insert(i, (name, kept));
                assert(self@.invites =~= old(self)@.invites.update(
                    i as int,
                    (g@, old(self)@.invites[i as int].1.filter(differs(u@))),
                ));
            },
            None => {},
        }
        assert(self@.users =~= old(self)@.users);
        assert(self@.groups =~= old(self)@.groups);
    }
}

// ---------------------------------------------------------------------------
// What the server answers to each message
// ---------------------------------------------------------------------------

/// A message to be written to a connection.
#[derive(Debug, Clone, PartialEq, Eq)]
pub struct Outgoing {
    pub to: u64,
    pub msg: Message,
}

impl View for Outgoing {
    type V = (u64, MessageView);

    open spec fn view(&self) -> (u64, MessageView) {
        (self.to, self.msg@)
    }
}

/// The messages of `v`, each with its connection.
pub open spec fn outgoing_view(v: Seq<Outgoing>) -> Seq<(u64, MessageView)> {
    v.map_values(|o: Outgoing| o@)
}

/// The list of commands that a client is shown when it logs in.
pub open spec fn help_text() -> Seq<char> {
    "/create <gruppo>\n /invite <gruppo> <user>\n/join <gruppo>\n/leave <gruppo>\n/msg <gruppo> <testo>"@
}

/// The reply to a join without an invitation.
pub open spec fn join_refusal(group: Seq<char>) -> Seq<char> {
    "Impossibile unirsi: non sei stato invitato al gruppo '"@ + group + "'"@
}

/// The reply to a text from someone who is not a member.
pub open spec fn send_refusal(group: Seq<char>) -> Seq<char> {
    "Impossibile inviare: non sei membro del gruppo '"@ + group + "'"@
}

/// The reply to an invitation from someone who is not a member.
pub open spec fn invite_refusal(group: Seq<char>) -> Seq<char> {
    "Autorizzazione negata: non sei membro del gruppo '"@ + group + "'"@
}

/// What the remaining members are told when `name` leaves.
pub open spec fn leave_notice(name: Seq<char>) -> Seq<char> {
    name + " ha lasciato il gruppo"@
}

/// A login registers the name for the connection; the connection is sent the
/// command list, then one invitation per group that already invites the name.
pub open spec fn step_login(s: ServerState, c: u64, username: Seq<char>) -> (
    ServerState,
    Seq<(u64, MessageView)>,
) {
    (
        ServerState { users: upsert(s.users, username, c), groups: s.groups, invites: s.invites },
        seq![(c, MessageView::Text { group: "system"@, from: "server"@, content: help_text() })]
            + invited_groups(s.invites, username).map_values(
            |g: Seq<char>| (c, MessageView::Invite { group: g, user: username }),
        ),
    )
}

/// A connection with a registered name that creates a group without members
/// becomes invited into it under that name and its member; a creation of a
/// group that has members changes nothing. Every creation is acknowledged.
pub open spec fn step_create(s: ServerState, c: u64, group: Seq<char>) -> (
    ServerState,
    Seq<(u64, MessageView)>,
) {
    match name_of_conn(s.users, c) {
        Some(creator) => if s.members(group).len() == 0 {
            (
                ServerState {
                    users: s.users,
                    groups: entry_insert(s.groups, group, c),
                    invites: entry_insert(s.invites, group, creator),
                },
                seq![(c, MessageView::Ack)],
            )
        } else {
            (s, seq![(c, MessageView::Ack)])
        },
        None => (s, seq![(c, MessageView::Ack)]),
    }
}

/// A join by an invited name makes the connection a member and registers the
/// name for it, and is acknowledged; any other join is refused.
pub open spec fn step_join(s: ServerState, c: u64, username: Seq<char>, group: Seq<char>) -> (
    ServerState,
    Seq<(u64, MessageView)>,
) {
    if s.is_invited(group, username) {
        (
            ServerState {
                users: upsert(s.users, username, c),
                groups: entry_insert(s.groups, group, c),
                invites: s.invites,
            },
            seq![(c, MessageView::Ack)],
        )
    } else {
        (s, seq![(c, MessageView::Error { reason: join_refusal(group) })])
    }
}

/// A leave takes the connection out of the group and the connection's name out
/// of the group's invitations; the remaining members are told who left, and
/// the leave is acknowledged.
pub open spec fn step_leave(s: ServerState, c: u64, group: Seq<char>) -> (
    ServerState,
    Seq<(u64, MessageView)>,
) {
    let name = name_of_conn(s.users, c);
    let leaver = match name {
        Some(n) => n,
        None => "qualcuno"@,
    };
    let invites = match name {
        Some(n) => entry_remove(s.invites, group, n),
        None => s.invites,
    };
    let notices = if has_key(s.groups, group) {
        s.members(group).filter(differs(c)).map_values(
            |p: u64|
                (p, MessageView::Text { group: group, from: "system"@, content: leave_notice(leaver) }),
        )
    } else {
        Seq::empty()
    };
    (
        ServerState { users: s.users, groups: entry_remove(s.groups, group, c), invites: invites },
        notices.push((c, MessageView::Ack)),
    )
}

/// A text may be sent to `group` when the connection registered for `from`
/// is one of its members.
pub open spec fn text_allowed(s: ServerState, group: Seq<char>, from: Seq<char>) -> bool {
    match value_of(s.users, from) {
        Some(w) => s.is_member(group, w),
        None => false,
    }
}

/// An allowed text goes to every member of the group, in order; any other is
/// refused.
pub open spec fn step_text(
    s: ServerState,
    c: u64,
    group: Seq<char>,
    from: Seq<char>,
    content: Seq<char>,
) -> (ServerState, Seq<(u64, MessageView)>) {
    if text_allowed(s, group, from) {
        (
            s,
            s.members(group).map_values(
                |p: u64| (p, MessageView::Text { group: group, from: from, content: content }),
            ),
        )
    } else {
        (s, seq![(c, MessageView::Error { reason: send_refusal(group) })])
    }
}

/// A connection may invite into `group` when it has a registered name and is
/// a member of the group.
pub open spec fn invite_allowed(s: ServerState, c: u64, group: Seq<char>) -> bool {
    name_of_conn(s.users, c) is Some && s.is_member(group, c)
}

/// An allowed invitation is recorded and forwarded to the invited name's
/// connection where it is registered; any other is refused.
pub open spec fn step_invite(s: ServerState, c: u64, group: Seq<char>, user: Seq<char>) -> (
    ServerState,
    Seq<(u64, MessageView)>,
) {
    if invite_allowed(s, c, group) {
        (
            ServerState {
                users: s.users,
                groups: s.groups,
                invites: entry_insert(s.invites, group, user),
            },
            match value_of(s.users, user) {
                Some(w) => seq![(w, MessageView::Invite { group: group, user: user })],
                None => Seq::empty(),
            },
        )
    } else {
        (s, seq![(c, MessageView::Error { reason: invite_refusal(group) })])
    }
}

/// The server's transition on message `m` from connection `c`: the next state
/// and the messages to write, in order, each with its connection.
pub open spec fn step(s: ServerState, c: u64, m: MessageView) -> (
    ServerState,
    Seq<(u64, MessageView)>,
) {
    match m {
        MessageView::Login { username } => step_login(s, c, username),
        MessageView::Create { group } => step_create(s, c, group),
        MessageView::Join { username, group } => step_join(s, c, username, group),
        MessageView::Leave { group } => step_leave(s, c, group),
        MessageView::Text { group, from, content } => step_text(s, c, group, from, content),
        MessageView::Invite { group, user } => step_invite(s, c, group, user),
        MessageView::Ack => (s, Seq::empty()),
        MessageView::Error { .. } => (s, Seq::empty()),
    }
}

/// The command list, as a string.
fn help_string() -> (r: String)
    ensures
        r@ == help_text(),
{
    String::from_str(
        "/create <gruppo>\n /invite <gruppo> <user>\n/join <gruppo>\n/leave <gruppo>\n/msg <gruppo> <testo>",
    )
}

/// `prefix`, then `group`, then a closing quote.
fn quoted_reason(prefix: &str, group: &String) -> (r: String)
    ensures
        r@ == prefix@ + group@ + "'"@,
{
    String::from_str(prefix).concat(group.as_str()).concat("'")
}

impl ServerTables {
    /// Whether `u` is invited into `g`.
    fn invited(&self, g: &String, u: &String) -> (b: bool)
        requires
            self@.wf(),
        ensures
            b == self@.is_invited(g@, u@),
    {
        match self.find_invites(g) {
            Some(i) => {
                proof {
                    lemma_key_index(self@.invites, g@, i as int);
                }
                contains_name(&self.invites[i].1, u)
            },
            None => false,
        }
    }

    /// The groups that invite `u`, in table order.
    fn groups_inviting(&self, u: &String) -> (r: Vec<String>)
        ensures
            names_view(r@) == invited_groups(self@.invites, u@),
    {
        let mut r: Vec<String> = Vec::new();
        let mut i: usize = 0;
        assert(self@.invites.take(0) =~= Seq::<(Seq<char>, Seq<Seq<char>>)>::empty());
        assert(names_view(r@) =~= Seq::<Seq<char>>::empty());
        while i < self.invites.len()
            invariant
                i <= self.invites@.len(),
                names_view(r@) == invited_groups(self@.invites.take(i as int), u@),
            decreases self.invites@.len() - i,
        {
            assert(self@.invites.take(i + 1).drop_last() == self@.invites.take(i as int));
            assert(self@.invites.take(i + 1).last() == self@.invites[i as int]);
            if contains_name(&self.invites[i].1, u) {
                let ghost before = r@;
                r.push(self.invites[i].0.clone());
                assert(names_view(r@) =~= names_view(before).push(self@.invites[i as int].0));
            }
            i = i + 1;
        }
        assert(self@.invites.take(self.invites@.len() as int) == self@.invites);
        r
    }

    fn handle_login(&mut self, c: u64, username: String) -> (out: Vec<Outgoing>)
        requires
            old(self)@.wf(),
        ensures
            final(self)@.wf(),
            final(self)@ == step_login(old(self)@, c, username@).0,
            outgoing_view(out@) == step_login(old(self)@, c, username@).1,
    {
        self.register(&username, c);
        let mut out: Vec<Outgoing> = Vec::new();
        out.push(
            Outgoing {
                to: c,
                msg: Message::Text {
                    group: String::from_str("system"),
                    from: String::from_str("server"),
                    content: help_string(),
                },
            },
        );
        let pending = self.groups_inviting(&username);
        let ghost head = seq![
            (c, MessageView::Text { group: "system"@, from: "server"@, content: help_text() }),
        ];
        let ghost f = |g: Seq<char>| (c, MessageView::Invite { group: g, user: username@ });
        assert(outgoing_view(out@) =~= head + names_view(pending@).take(0).map_values(f));
        let mut j: usize = 0;
        while j < pending.len()
            invariant
                j <= pending@.len(),
                outgoing_view(out@) == head + names_view(pending@).take(j as int).map_values(f),
                f == (|g: Seq<char>| (c, MessageView::Invite { group: g, user: username@ })),
            decreases pending@.len() - j,
        {
            let ghost before = out@;
            out.push(Outgoing { to: c, msg: Message::Invite { group: pending[j].clone(), user: username.clone() } });
            assert(names_view(pending@).take(j + 1) =~= names_view(pending@).take(j as int).push(pending@[j as int]@));
            assert(outgoing_view(out@) =~= outgoing_view(before).push(f(pending@[j as int]@)));
            assert(outgoing_view(out@) =~= head + names_view(pending@).take(j + 1).map_values(f));
            j = j + 1;
        }
        assert(names_view(pending@).take(pending@.len() as int) =~= names_view(pending@));
        out
    }

    fn handle_create(&mut self, c: u64, group: String) -> (out: Vec<Outgoing>)
        requires
            old(self)@.wf(),
        ensures
            final(self)@.wf(),
            final(self)@ == step_create(old(self)@, c, group@).0,
            outgoing_view(out@) == step_create(old(self)@, c, group@).1,
    {
        let has_members = match self.find_group(&group) {
            Some(gi) => {
                proof {
                    lemma_key_index(self@.groups, group@, gi as int);
                }
                self.groups[gi].1.len() > 0
            },
            None => false,
        };
        if !has_members {
            match self.conn_name(c) {
                Some(i) => {
                    let creator = self.users[i].0.clone();
                    self.add_invite(&group, &creator);
                    self.add_member(&group, c);
                },
                None => {},
            }
        }
        let mut out: Vec<Outgoing> = Vec::new();
        out.push(Outgoing { to: c, msg: Message::Ack });
        assert(outgoing_view(out@) =~= seq![(c, MessageView::Ack)]);
        out
    }

    fn handle_join(&mut self, c: u64, username: String, group: String) -> (out: Vec<Outgoing>)
        requires
            old(self)@.wf(),
        ensures
            final(self)@.wf(),
            final(self)@ == step_join(old(self)@, c, username@, group@).0,
            outgoing_view(out@) == step_join(old(self)@, c, username@, group@).1,
    {
        let mut out: Vec<Outgoing> = Vec::new();
        if self.invited(&group, &username) {
            self.add_member(&group, c);
            out.push(Outgoing { to: c, msg: Message::Ack });
            self.register(&username, c);
            assert(outgoing_view(out@) =~= seq![(c, MessageView::Ack)]);
        } else {
            let reason = quoted_reason("Impossibile unirsi: non sei stato invitato al gruppo '", &group);
            out.push(Outgoing { to: c, msg: Message::Error { reason } });
            assert(outgoing_view(out@) =~= seq![(c, MessageView::Error { reason: join_refusal(group@) })]);
        }
        out
    }
}

impl ServerTables {
    fn handle_leave(&mut self, c: u64, group: String) -> (out: Vec<Outgoing>)
        requires
            old(self)@.wf(),
        ensures
            final(self)@.wf(),
            final(self)@ == step_leave(old(self)@, c, group@).0,
            outgoing_view(out@) == step_leave(old(self)@, c, group@).1,
    {
        let ghost s0 = self@;
        let name_idx = self.conn_name(c);
        let leaver: String = match name_idx {
            Some(i) => self.users[i].0.clone(),
            None => String::from_str("qualcuno"),
        };
        let had_group = match self.find_group(&group) {
            Some(_) => true,
            None => false,
        };
        self.remove_member(&group, c);
        proof {
            lemma_entry_remove_wf(s0.groups, group@, c);
        }
        match name_idx {
            Some(i) => {
                let n = self.users[i].0.clone();
                self.remove_invite(&group, &n);
            },
            None => {},
        }
        let mut out: Vec<Outgoing> = Vec::new();
        let ghost f = |p: u64|
            (p, MessageView::Text { group: group@, from: "system"@, content: leave_notice(leaver@) });
        if had_group {
            let notice = leaver.concat(" ha lasciato il gruppo");
            match self.find_group(&group) {
                Some(gi) => {
                    proof {
                        lemma_key_index(self@.groups, group@, gi as int);
                    }
                    let ghost members = self@.groups[gi as int].1;
                    assert(members == s0.members(group@).filter(differs(c)));
                    assert(outgoing_view(out@) =~= members.take(0).map_values(f));
                    let mut j: usize = 0;
                    while j < self.groups[gi].1.len()
                        invariant
                            gi < self@.groups.len(),
                            members == self@.groups[gi as int].1,
                            j <= members.len(),
                            notice@ == leave_notice(leaver@),
                            outgoing_view(out@) == members.take(j as int).map_values(f),
                            f == (|p: u64|
                                (
                                    p,
                                    MessageView::Text {
                                        group: group@,
                                        from: "system"@,
                                        content: leave_notice(leaver@),
                                    },
                                )),
                        decreases members.len() - j,
                    {
                        let ghost before = out@;
                        let p = self.groups[gi].1[j];
                        out.push(
                            Outgoing {
                                to: p,
                                msg: Message::Text {
                                    group: group.clone(),
                                    from: String::from_str("system"),
                                    content: notice.clone(),
                                },
                            },
                        );
                        assert(members.take(j + 1) =~= members.take(j as int).push(members[j as int]));
                        assert(outgoing_view(out@) =~= outgoing_view(before).push(f(p)));
                        assert(outgoing_view(out@) =~= members.take(j + 1).map_values(f));
                        j = j + 1;
                    }
                    assert(members.take(members.len() as int) =~= members);
                },
                None => {},
            }
        } else {
            assert(outgoing_view(out@) =~= Seq::<(u64, MessageView)>::empty());
        }
        let ghost before = out@;
        out.push(Outgoing { to: c, msg: Message::Ack });
        assert(outgoing_view(out@) =~= outgoing_view(before).push((c, MessageView::Ack)));
        out
    }

    fn handle_text(&mut self, c: u64, group: String, from: String, content: String) -> (out: Vec<
        Outgoing,
    >)
        requires
            old(self)@.wf(),
        ensures
            final(self)@.wf(),
            final(self)@ == step_text(old(self)@, c, group@, from@, content@).0,
            outgoing_view(out@) == step_text(old(self)@, c, group@, from@, content@).1,
    {
        let mut out: Vec<Outgoing> = Vec::new();
        let gidx = self.find_group(&group);
        let mut allowed = false;
        match gidx {
            Some(gi) => {
                proof {
                    lemma_key_index(self@.groups, group@, gi as int);
                }
                match self.find_user(&from) {
                    Some(ui) => {
                        allowed = contains_conn(&self.groups[gi].1, self.users[ui].1);
                    },
                    None => {},
                }
            },
            None => {},
        }
        if !allowed {
            let reason = quoted_reason("Impossibile inviare: non sei membro del gruppo '", &group);
            out.push(Outgoing { to: c, msg: Message::Error { reason } });
            assert(outgoing_view(out@) =~= seq![(c, MessageView::Error { reason: send_refusal(group@) })]);
            return out;
        }
        let gi = match gidx {
            Some(gi) => gi,
            None => { return out; },
        };
        let ghost members = self@.groups[gi as int].1;
        let ghost f = |p: u64|
            (p, MessageView::Text { group: group@, from: from@, content: content@ });
        assert(outgoing_view(out@) =~= members.take(0).map_values(f));
        let mut j: usize = 0;
        while j < self.groups[gi].1.len()
            invariant
                gi < self@.groups.len(),
                members == self@.groups[gi as int].1,
                j <= members.len(),
                outgoing_view(out@) == members.take(j as int).map_values(f),
                f == (|p: u64|
                    (p, MessageView::Text { group: group@, from: from@, content: content@ })),
            decreases members.len() - j,
        {
            let ghost before = out@;
            let p = self.groups[gi].1[j];
            out.push(
                Outgoing {
                    to: p,
                    msg: Message::Text {
                        group: group.clone(),
                        from: from.clone(),
                        content: content.clone(),
                    },
                },
            );
            assert(members.take(j + 1) =~= members.take(j as int).push(members[j as int]));
            assert(outgoing_view(out@) =~= outgoing_view(before).push(f(p)));
            assert(outgoing_view(out@) =~= members.take(j + 1).map_values(f));
            j = j + 1;
        }
        assert(members.take(members.len() as int) =~= members);
        out
    }

    fn handle_invite(&mut self, c: u64, group: String, user: String) -> (out: Vec<Outgoing>)
        requires
            old(self)@.wf(),
        ensures
            final(self)@.wf(),
            final(self)@ == step_invite(old(self)@, c, group@, user@).0,
            outgoing_view(out@) == step_invite(old(self)@, c, group@, user@).1,
    {
        let mut out: Vec<Outgoing> = Vec::new();
        let mut is_member = false;
        match self.conn_name(c) {
            Some(i) => {
                let inviter = self.users[i].0.clone();
                match self.find_user(&inviter) {
                    Some(k) => {
                        proof {
                            lemma_key_index(self@.users, inviter@, i as int);
                        }
                        let uw = self.users[k].1;
                        match self.find_group(&group) {
                            Some(gi) => {
                                proof {
                                    lemma_key_index(self@.groups, group@, gi as int);
                                }
                                is_member = contains_conn(&self.groups[gi].1, uw);
                            },
                            None => {},
                        }
                    },
                    None => {},
                }
            },
            None => {},
        }
        if !is_member {
            let reason = quoted_reason("Autorizzazione negata: non sei membro del gruppo '", &group);
            out.push(Outgoing { to: c, msg: Message::Error { reason } });
            assert(outgoing_view(out@) =~= seq![(c, MessageView::Error { reason: invite_refusal(group@) })]);
            return out;
        }
        self.add_invite(&group, &user);
        match self.find_user(&user) {
            Some(k) => {
                out.push(
                    Outgoing {
                        to: self.users[k].1,
                        msg: Message::Invite { group: group.clone(), user: user.clone() },
                    },
                );
                assert(outgoing_view(out@) =~= seq![
                    (self@.users[k as int].1, MessageView::Invite { group: group@, user: user@ }),
                ]);
            },
            None => {
                assert(outgoing_view(out@) =~= Seq::<(u64, MessageView)>::empty());
            },
        }
        out
    }

    /// The tables' transition on message `msg` from connection `conn`.
    fn handle_message(&mut self, conn: u64, msg: Message) -> (out: Vec<Outgoing>)
        requires
            old(self)@.wf(),
        ensures
            final(self)@.wf(),
            final(self)@ == step(old(self)@, conn, msg@).0,
            outgoing_view(out@) == step(old(self)@, conn, msg@).1,
    {
        match msg {
            Message::Login { username } => self.handle_login(conn, username),
            Message::Create { group } => self.handle_create(conn, group),
            Message::Join { username, group } => self.handle_join(conn, username, group),
            Message::Leave { group } => self.handle_leave(conn, group),
            Message::Text { group, from, content } => self.handle_text(conn, group, from, content),
            Message::Invite { group, user } => self.handle_invite(conn, group, user),
            Message::Ack => {
                let out: Vec<Outgoing> = Vec::new();
                assert(outgoing_view(out@) =~= Seq::<(u64, MessageView)>::empty());
                out
            },
            Message::Error { .. } => {
                let out: Vec<Outgoing> = Vec::new();
                assert(outgoing_view(out@) =~= Seq::<(u64, MessageView)>::empty());
                out
            },
        }
    }
}

// ---------------------------------------------------------------------------
// Laws of the server
// ---------------------------------------------------------------------------

proof fn lemma_invited_groups_contains(
    invites: Seq<(Seq<char>, Seq<Seq<char>>)>,
    g: Seq<char>,
    u: Seq<char>,
    i: int,
)
    requires
        0 <= i < invites.len(),
        invites[i].0 == g,
        invites[i].1.contains(u),
    ensures
        invited_groups(invites, u).contains(g),
    decreases invites.len(),
{
    let rest = invited_groups(invites.drop_last(), u);
    if i == invites.len() - 1 {
        assert(rest.push(g)[rest.len() as int] == g);
    } else {
        lemma_invited_groups_contains(invites.drop_last(), g, u, i);
        let k = choose|k: int| 0 <= k < rest.len() && rest[k] == g;
        if invites.last().1.contains(u) {
            assert(rest.push(invites.last().0)[k] == g);
        }
    }
}

/// Every transition keeps the tables well formed: each user, group and
/// invitation set appears once, and no set holds anything twice.
pub proof fn law_step_keeps_wf(s: ServerState, c: u64, m: MessageView)
    requires
        s.wf(),
    ensures
        step(s, c, m).0.wf(),
{
    match m {
        MessageView::Login { username } => {
            lemma_upsert_unique(s.users, username, c);
        },
        MessageView::Create { group } => {
            lemma_entry_insert_wf(s.groups, group, c);
            if let Some(n) = name_of_conn(s.users, c) {
                lemma_entry_insert_wf(s.invites, group, n);
            }
        },
        MessageView::Join { username, group } => {
            lemma_upsert_unique(s.users, username, c);
            lemma_entry_insert_wf(s.groups, group, c);
        },
        MessageView::Leave { group } => {
            lemma_entry_remove_wf(s.groups, group, c);
            if let Some(n) = name_of_conn(s.users, c) {
                lemma_entry_remove_wf(s.invites, group, n);
            }
        },
        MessageView::Invite { group, user } => {
            lemma_entry_insert_wf(s.invites, group, user);
        },
        _ => {},
    }
}

/// Message `m` from connection `c` admits `c` into `g` in state `s`: it
/// creates `g` while `g` has no members and `c` has a registered name, or it
/// joins `g` under a name that `g` invites.
pub open spec fn admits(s: ServerState, c: u64, g: Seq<char>, m: MessageView) -> bool {
    ||| (m matches MessageView::Create { group } && group == g && s.members(g).len() == 0
        && name_of_conn(s.users, c) is Some)
    ||| (m matches MessageView::Join { username, group } && group == g && s.is_invited(g, username))
}

/// A connection becomes a member of a group only through a message of its own
/// that admits it: a creation of a group that has no members, or a join under
/// an invited name. A group that has members is entered by invitation only.
pub proof fn law_membership_needs_invitation(
    s: ServerState,
    c: u64,
    m: MessageView,
    g: Seq<char>,
    p: u64,
)
    requires
        s.wf(),
        step(s, c, m).0.is_member(g, p),
        !s.is_member(g, p),
    ensures
        p == c,
        admits(s, c, g, m),
{
    match m {
        MessageView::Create { group } => {
            lemma_entry_insert_wf(s.groups, group, c);
        },
        MessageView::Join { username, group } => {
            lemma_entry_insert_wf(s.groups, group, c);
        },
        MessageView::Leave { group } => {
            lemma_entry_remove_wf(s.groups, group, c);
            if group == g {
                s.members(g).lemma_filter_contains_rev(differs(c), p);
            }
        },
        _ => {},
    }
}

/// `m` is a text of group `g`.
pub open spec fn is_text_of(m: MessageView, g: Seq<char>) -> bool {
    m matches MessageView::Text { group, .. } && group == g
}

/// The command list sent on login.
pub open spec fn login_help(c: u64) -> (u64, MessageView) {
    (c, MessageView::Text { group: "system"@, from: "server"@, content: help_text() })
}

/// A connection outside a group is sent no text of that group, but for the
/// command list that answers its own login.
pub proof fn law_non_members_get_no_texts(
    s: ServerState,
    c: u64,
    m: MessageView,
    g: Seq<char>,
    p: u64,
)
    requires
        s.wf(),
        !s.is_member(g, p),
    ensures
        forall|i: int|
            0 <= i < step(s, c, m).1.len() && (#[trigger] step(s, c, m).1[i]).0 == p
                && is_text_of(step(s, c, m).1[i].1, g) ==> (
            m is Login && i == 0 && step(s, c, m).1[i] == login_help(c)),
{
    let out = step(s, c, m).1;
    assert forall|i: int|
        0 <= i < out.len() && (#[trigger] out[i]).0 == p && is_text_of(out[i].1, g) implies (m is Login && i == 0 && out[i] == login_help(c)) by {
        match m {
            MessageView::Login { username } => {
                let pending = invited_groups(s.invites, username);
                let f = |x: Seq<char>| (c, MessageView::Invite { group: x, user: username });
                if i > 0 {
                    assert(out[i] == pending.map_values(f)[i - 1]);
                }
            },
            MessageView::Text { group, from, content } => {
                if text_allowed(s, group, from) {
                    assert(s.members(group)[i] == p);
                }
            },
            MessageView::Leave { group } => {
                if has_key(s.groups, group) && i < out.len() - 1 {
                    let f = s.members(group).filter(differs(c));
                    assert(f[i] == p);
                    assert(f.contains(p));
                    s.members(group).lemma_filter_contains_rev(differs(c), p);
                }
            },
            _ => {},
        }
    }
}

/// The state after the messages `evs`, each a connection and what it sent,
/// handled in order from `s`.
pub open spec fn run(s: ServerState, evs: Seq<(u64, MessageView)>) -> ServerState
    decreases evs.len(),
{
    if evs.len() == 0 {
        s
    } else {
        step(run(s, evs.drop_last()), evs.last().0, evs.last().1).0
    }
}

/// No message of `evs` from `c` admits `c` into `g`, each judged in the state
/// it meets.
pub open spec fn no_admission(s: ServerState, evs: Seq<(u64, MessageView)>, c: u64, g: Seq<char>) -> bool {
    forall|k: int|
        0 <= k < evs.len() ==> !((#[trigger] evs[k]).0 == c && admits(run(s, evs.take(k)), c, g, evs[k].1))
}

proof fn lemma_run_stays_outside(
    s: ServerState,
    evs: Seq<(u64, MessageView)>,
    c: u64,
    g: Seq<char>,
    k: int,
)
    requires
        s.wf(),
        !s.is_member(g, c),
        no_admission(s, evs, c, g),
        0 <= k <= evs.len(),
    ensures
        run(s, evs.take(k)).wf(),
        !run(s, evs.take(k)).is_member(g, c),
    decreases k,
{
    if k == 0 {
        assert(evs.take(0) =~= Seq::<(u64, MessageView)>::empty());
    } else {
        lemma_run_stays_outside(s, evs, c, g, k - 1);
        let t = run(s, evs.take(k - 1));
        assert(evs.take(k).drop_last() =~= evs.take(k - 1));
        assert(evs.take(k).last() == evs[k - 1]);
        law_step_keeps_wf(t, evs[k - 1].0, evs[k - 1].1);
        if run(s, evs.take(k)).is_member(g, c) {
            law_membership_needs_invitation(t, evs[k - 1].0, evs[k - 1].1, g, c);
        }
    }
}

/// A connection outside a group stays outside it, and is sent no text of it
/// but the answer to its own login, until a message of its own admits it:
/// a join under an invited name, or a creation once the group has no members.
pub proof fn law_outside_until_admitted(
    s: ServerState,
    evs: Seq<(u64, MessageView)>,
    c: u64,
    g: Seq<char>,
)
    requires
        s.wf(),
        !s.is_member(g, c),
        no_admission(s, evs, c, g),
    ensures
        !run(s, evs).is_member(g, c),
        forall|k: int, i: int|
            0 <= k < evs.len() && 0 <= i < step(run(s, evs.take(k)), evs[k].0, evs[k].1).1.len()
                && (#[trigger] step(run(s, evs.take(k)), evs[k].0, evs[k].1).1[i]).0 == c
                && is_text_of(step(run(s, evs.take(k)), evs[k].0, evs[k].1).1[i].1, g) ==> evs[k].1 is Login && i == 0,
{
    lemma_run_stays_outside(s, evs, c, g, evs.len() as int);
    assert(evs.take(evs.len() as int) =~= evs);
    assert forall|k: int, i: int|
        0 <= k < evs.len() && 0 <= i < step(run(s, evs.take(k)), evs[k].0, evs[k].1).1.len()
            && (#[trigger] step(run(s, evs.take(k)), evs[k].0, evs[k].1).1[i]).0 == c
            && is_text_of(step(run(s, evs.take(k)), evs[k].0, evs[k].1).1[i].1, g) implies evs[k].1 is Login && i == 0 by {
        lemma_run_stays_outside(s, evs, c, g, k);
        law_non_members_get_no_texts(run(s, evs.take(k)), evs[k].0, evs[k].1, g, c);
    }
}

/// A connection that leaves a group stays out of it, and is sent no text of
/// it but the answer to a login of its own, until a message of its own admits
/// it again.
pub proof fn law_no_texts_after_leaving(
    s: ServerState,
    c: u64,
    g: Seq<char>,
    evs: Seq<(u64, MessageView)>,
)
    requires
        s.wf(),
        no_admission(step(s, c, MessageView::Leave { group: g }).0, evs, c, g),
    ensures
        ({
            let s1 = step(s, c, MessageView::Leave { group: g }).0;
            &&& !s1.is_member(g, c)
            &&& !run(s1, evs).is_member(g, c)
            &&& forall|k: int, i: int|
                0 <= k < evs.len() && 0 <= i < step(run(s1, evs.take(k)), evs[k].0, evs[k].1).1.len()
                    && (#[trigger] step(run(s1, evs.take(k)), evs[k].0, evs[k].1).1[i]).0 == c
                    && is_text_of(step(run(s1, evs.take(k)), evs[k].0, evs[k].1).1[i].1, g) ==> evs[k].1 is Login && i == 0
        }),
{
    let s1 = step(s, c, MessageView::Leave { group: g }).0;
    law_step_keeps_wf(s, c, MessageView::Leave { group: g });
    lemma_entry_remove_wf(s.groups, g, c);
    let f = s.members(g).filter(differs(c));
    if f.contains(c) {
        let k = choose|k: int| 0 <= k < f.len() && f[k] == c;
        s.members(g).lemma_filter_pred(differs(c), k);
    }
    law_outside_until_admitted(s1, evs, c, g);
}

/// Leaving a group withdraws the leaver's invitation: the same name's next
/// join of that group is refused until it is invited again.
pub proof fn law_leave_revokes_invitation(
    s: ServerState,
    c: u64,
    g: Seq<char>,
    name: Seq<char>,
    c2: u64,
)
    requires
        s.wf(),
        name_of_conn(s.users, c) == Some(name),
    ensures
        !step(s, c, MessageView::Leave { group: g }).0.is_invited(g, name),
        step(
            step(s, c, MessageView::Leave { group: g }).0,
            c2,
            MessageView::Join { username: name, group: g },
        ) == (
            step(s, c, MessageView::Leave { group: g }).0,
            seq![(c2, MessageView::Error { reason: join_refusal(g) })],
        ),
{
    lemma_entry_remove_wf(s.invites, g, name);
    let f = set_of(s.invites, g).filter(differs(name));
    if f.contains(name) {
        let k = choose|k: int| 0 <= k < f.len() && f[k] == name;
        set_of(s.invites, g).lemma_filter_pred(differs(name), k);
    }
}

/// An invitation sent by a member lets the invited name join: its join is
/// acknowledged and makes the joining connection a member.
pub proof fn law_invited_user_can_join(
    s: ServerState,
    c: u64,
    g: Seq<char>,
    u: Seq<char>,
    c2: u64,
)
    requires
        s.wf(),
        invite_allowed(s, c, g),
    ensures
        ({
            let s1 = step(s, c, MessageView::Invite { group: g, user: u }).0;
            let (s2, out) = step(s1, c2, MessageView::Join { username: u, group: g });
            &&& s1.is_invited(g, u)
            &&& out == seq![(c2, MessageView::Ack)]
            &&& s2.is_member(g, c2)
        }),
{
    lemma_entry_insert_wf(s.invites, g, u);
    lemma_set_insert_no_dup(set_of(s.invites, g), u);
    let s1 = step(s, c, MessageView::Invite { group: g, user: u }).0;
    lemma_entry_insert_wf(s1.groups, g, c2);
    lemma_set_insert_no_dup(set_of(s1.groups, g), c2);
}

/// Every invitation stays, but for the leaver's own invitation into the group
/// that it leaves.
pub proof fn law_invitations_persist(
    s: ServerState,
    c: u64,
    m: MessageView,
    g: Seq<char>,
    u: Seq<char>,
)
    requires
        s.wf(),
        s.is_invited(g, u),
    ensures
        step(s, c, m).0.is_invited(g, u) <==> !(m matches MessageView::Leave { group } && group
            == g && name_of_conn(s.users, c) == Some(u)),
{
    match m {
        MessageView::Create { group } => {
            if let Some(n) = name_of_conn(s.users, c) {
                lemma_entry_insert_wf(s.invites, group, n);
                if group == g {
                    let k = choose|k: int|
                        0 <= k < set_of(s.invites, g).len() && set_of(s.invites, g)[k] == u;
                    if !set_of(s.invites, g).contains(n) {
                        assert(set_of(s.invites, g).push(n)[k] == u);
                    }
                }
            }
        },
        MessageView::Invite { group, user } => {
            if invite_allowed(s, c, group) {
                lemma_entry_insert_wf(s.invites, group, user);
                if group == g {
                    let k = choose|k: int|
                        0 <= k < set_of(s.invites, g).len() && set_of(s.invites, g)[k] == u;
                    if !set_of(s.invites, g).contains(user) {
                        assert(set_of(s.invites, g).push(user)[k] == u);
                    }
                }
            }
        },
        MessageView::Leave { group } => {
            if let Some(n) = name_of_conn(s.users, c) {
                lemma_entry_remove_wf(s.invites, group, n);
                if group == g {
                    let f = set_of(s.invites, g).filter(differs(n));
                    if n == u {
                        if f.contains(u) {
                            let k = choose|k: int| 0 <= k < f.len() && f[k] == u;
                            set_of(s.invites, g).lemma_filter_pred(differs(n), k);
                        }
                    } else {
                        let k = choose|k: int|
                            0 <= k < set_of(s.invites, g).len() && set_of(s.invites, g)[k] == u;
                        set_of(s.invites, g).lemma_filter_contains(differs(n), k);
                    }
                }
            }
        },
        _ => {},
    }
}

/// A name that logs in is sent every invitation that waits for it.
pub proof fn law_login_delivers_pending_invitations(
    s: ServerState,
    c: u64,
    u: Seq<char>,
    g: Seq<char>,
)
    requires
        s.wf(),
        s.is_invited(g, u),
    ensures
        step(s, c, MessageView::Login { username: u }).1.contains(
            (c, MessageView::Invite { group: g, user: u }),
        ),
{
    let i = key_index(s.invites, g);
    lemma_key_index(s.invites, g, i);
    lemma_invited_groups_contains(s.invites, g, u, i);
    let pending = invited_groups(s.invites, u);
    let k = choose|k: int| 0 <= k < pending.len() && pending[k] == g;
    let f = |x: Seq<char>| (c, MessageView::Invite { group: x, user: u });
    let head = seq![
        (c, MessageView::Text { group: "system"@, from: "server"@, content: help_text() }),
    ];
    let out = step(s, c, MessageView::Login { username: u }).1;
    assert(out == head + pending.map_values(f));
    assert(out[k + 1] == (c, MessageView::Invite { group: g, user: u }));
}

/// Every login, creation, join and leave is answered on its own connection:
/// a login first with the command list, the others last with an
/// acknowledgement or an error.
pub proof fn law_requests_are_answered(s: ServerState, c: u64, m: MessageView)
    requires
        m is Login || m is Create || m is Join || m is Leave,
    ensures
        step(s, c, m).1.len() > 0,
        m is Login ==> step(s, c, m).1[0] == (
            c,
            MessageView::Text { group: "system"@, from: "server"@, content: help_text() },
        ),
        !(m is Login) ==> step(s, c, m).1.last().0 == c && (step(s, c, m).1.last().1 is Ack
            || step(s, c, m).1.last().1 is Error),
{
}

/// A text from a name whose connection is a member reaches every member of
/// the group, its sender's connection among them.
pub proof fn law_text_reaches_every_member(
    s: ServerState,
    c: u64,
    g: Seq<char>,
    from: Seq<char>,
    content: Seq<char>,
    p: u64,
)
    requires
        text_allowed(s, g, from),
        s.is_member(g, p),
    ensures
        step(s, c, MessageView::Text { group: g, from: from, content: content }).1.contains(
            (p, MessageView::Text { group: g, from: from, content: content }),
        ),
{
    let members = s.members(g);
    let k = choose|k: int| 0 <= k < members.len() && members[k] == p;
    let out = step(s, c, MessageView::Text { group: g, from: from, content: content }).1;
    assert(out[k] == (p, MessageView::Text { group: g, from: from, content: content }));
}

proof fn lemma_invited_groups_sound(
    invites: Seq<(Seq<char>, Seq<Seq<char>>)>,
    u: Seq<char>,
    g: Seq<char>,
)
    requires
        keys_unique(invites),
        invited_groups(invites, u).contains(g),
    ensures
        set_of(invites, g).contains(u),
    decreases invites.len(),
{
    let d = invites.drop_last();
    let rest = invited_groups(d, u);
    let n = invites.len() - 1;
    if invites.last().1.contains(u) && invites.last().0 == g {
        lemma_key_index(invites, g, n);
    } else {
        let k = choose|k: int|
            0 <= k < invited_groups(invites, u).len() && invited_groups(invites, u)[k] == g;
        if invites.last().1.contains(u) {
            assert(k < rest.len());
            assert(rest[k] == g);
        }
        assert(rest.contains(g));
        assert(keys_unique(d));
        lemma_invited_groups_sound(d, u, g);
        let j = key_index(d, g);
        lemma_key_index(d, g, j);
        lemma_key_index(invites, g, j);
    }
}

/// `m` is an invitation of `u`.
pub open spec fn is_invitation_of(m: MessageView, u: Seq<char>) -> bool {
    m is Invite && m->Invite_user == u
}

/// A login registers the name for its connection and changes no group or
/// invitation; its reply is the command list, then invitations of that name
/// into groups that do invite it, and no other message.
pub proof fn law_login_reply(s: ServerState, c: u64, u: Seq<char>)
    requires
        s.wf(),
    ensures
        value_of(step(s, c, MessageView::Login { username: u }).0.users, u) == Some(c),
        step(s, c, MessageView::Login { username: u }).0.groups == s.groups,
        step(s, c, MessageView::Login { username: u }).0.invites == s.invites,
        step(s, c, MessageView::Login { username: u }).1.len() >= 1,
        step(s, c, MessageView::Login { username: u }).1[0] == (
            c,
            MessageView::Text {
                group: "system"@,
                from: "server"@,
                content: "/create <gruppo>\n /invite <gruppo> <user>\n/join <gruppo>\n/leave <gruppo>\n/msg <gruppo> <testo>"@,
            },
        ),
        forall|i: int|
            1 <= i < step(s, c, MessageView::Login { username: u }).1.len() ==> {
                let o = #[trigger] step(s, c, MessageView::Login { username: u }).1[i];
                &&& o.0 == c
                &&& is_invitation_of(o.1, u)
                &&& s.is_invited(o.1->Invite_group, u)
            },
{
    lemma_upsert_unique(s.users, u, c);
    let pending = invited_groups(s.invites, u);
    let f = |x: Seq<char>| (c, MessageView::Invite { group: x, user: u });
    let out = step(s, c, MessageView::Login { username: u }).1;
    assert forall|i: int| 1 <= i < out.len() implies {
        let o = #[trigger] out[i];
        &&& o.0 == c
        &&& is_invitation_of(o.1, u)
        &&& s.is_invited(o.1->Invite_group, u)
    } by {
        assert(out[i] == f(pending[i - 1]));
        assert(pending.contains(pending[i - 1]));
        lemma_invited_groups_sound(s.invites, u, pending[i - 1]);
    }
}

/// A leave changes no registration; it takes exactly the leaving connection
/// out of the group it names, and changes no other group's members or
/// invitations.
pub proof fn law_leave_touches_only_its_group(
    s: ServerState,
    c: u64,
    g: Seq<char>,
    other: Seq<char>,
    p: u64,
)
    requires
        s.wf(),
        other != g,
    ensures
        step(s, c, MessageView::Leave { group: g }).0.users == s.users,
        step(s, c, MessageView::Leave { group: g }).0.members(other) == s.members(other),
        set_of(step(s, c, MessageView::Leave { group: g }).0.invites, other) == set_of(
            s.invites,
            other,
        ),
        step(s, c, MessageView::Leave { group: g }).0.is_member(g, p) <==> (s.is_member(g, p) && p
            != c),
{
    lemma_entry_remove_wf(s.groups, g, c);
    if let Some(n) = name_of_conn(s.users, c) {
        lemma_entry_remove_wf(s.invites, g, n);
    }
    let f = s.members(g).filter(differs(c));
    if f.contains(p) {
        s.members(g).lemma_filter_contains_rev(differs(c), p);
        let k = choose|k: int| 0 <= k < f.len() && f[k] == p;
        s.members(g).lemma_filter_pred(differs(c), k);
    }
    if s.is_member(g, p) && p != c {
        let k = choose|k: int| 0 <= k < s.members(g).len() && s.members(g)[k] == p;
        s.members(g).lemma_filter_contains(differs(c), k);
    }
}

/// `m` acts on group `g`: it creates, joins, leaves or invites into it.
pub open spec fn acts_on(m: MessageView, g: Seq<char>) -> bool {
    match m {
        MessageView::Create { group } => group == g,
        MessageView::Join { group, .. } => group == g,
        MessageView::Leave { group } => group == g,
        MessageView::Invite { group, .. } => group == g,
        _ => false,
    }
}

/// A message changes the members and the invitations of no group but the one
/// it acts on.
pub proof fn law_other_groups_untouched(s: ServerState, c: u64, m: MessageView, g: Seq<char>)
    requires
        s.wf(),
        !acts_on(m, g),
    ensures
        step(s, c, m).0.members(g) == s.members(g),
        set_of(step(s, c, m).0.invites, g) == set_of(s.invites, g),
{
    match m {
        MessageView::Create { group } => {
            lemma_entry_insert_wf(s.groups, group, c);
            if let Some(n) = name_of_conn(s.users, c) {
                lemma_entry_insert_wf(s.invites, group, n);
            }
        },
        MessageView::Join { username, group } => {
            lemma_entry_insert_wf(s.groups, group, c);
        },
        MessageView::Leave { group } => {
            lemma_entry_remove_wf(s.groups, group, c);
            if let Some(n) = name_of_conn(s.users, c) {
                lemma_entry_remove_wf(s.invites, group, n);
            }
        },
        MessageView::Invite { group, user } => {
            lemma_entry_insert_wf(s.invites, group, user);
        },
        _ => {},
    }
}

/// A text changes nothing; it is either refused to its sender alone, or sent
/// unchanged to every member of its group and to no one else.
pub proof fn law_text_delivered_unchanged(
    s: ServerState,
    c: u64,
    g: Seq<char>,
    from: Seq<char>,
    content: Seq<char>,
)
    requires
        s.wf(),
    ensures
        step(s, c, MessageView::Text { group: g, from: from, content: content }).0 == s,
        step(s, c, MessageView::Text { group: g, from: from, content: content }).1 == seq![
            (c, MessageView::Error { reason: send_refusal(g) }),
        ] || (forall|i: int|
            0 <= i < step(s, c, MessageView::Text { group: g, from: from, content: content }).1.len()
                ==> {
                let o = #[trigger] step(
                    s,
                    c,
                    MessageView::Text { group: g, from: from, content: content },
                ).1[i];
                &&& s.is_member(g, o.0)
                &&& o.1 == MessageView::Text { group: g, from: from, content: content }
            }),
{
    let out = step(s, c, MessageView::Text { group: g, from: from, content: content }).1;
    if text_allowed(s, g, from) {
        assert forall|i: int| 0 <= i < out.len() implies {
            let o = #[trigger] out[i];
            &&& s.is_member(g, o.0)
            &&& o.1 == MessageView::Text { group: g, from: from, content: content }
        } by {
            assert(s.members(g)[i] == out[i].0);
        }
    }
}

/// A join under an invited name makes the connection a member, registers the
/// name for it, leaves every invitation as it was, and is acknowledged; a
/// join under any other name changes nothing and is refused.
pub proof fn law_join_reply(s: ServerState, c: u64, u: Seq<char>, g: Seq<char>)
    requires
        s.wf(),
    ensures
        s.is_invited(g, u) ==> {
            let (t, out) = step(s, c, MessageView::Join { username: u, group: g });
            &&& t.is_member(g, c)
            &&& value_of(t.users, u) == Some(c)
            &&& t.invites == s.invites
            &&& out == seq![(c, MessageView::Ack)]
        },
        !s.is_invited(g, u) ==> step(s, c, MessageView::Join { username: u, group: g }) == (
            s,
            seq![
                (
                    c,
                    MessageView::Error {
                        reason: "Impossibile unirsi: non sei stato invitato al gruppo '"@ + g + "'"@,
                    },
                ),
            ],
        ),
{
    lemma_upsert_unique(s.users, u, c);
    lemma_entry_insert_wf(s.groups, g, c);
    lemma_set_insert_no_dup(set_of(s.groups, g), c);
}

/// A creation by a connection with a registered name, of a group without
/// members, makes the connection the group's member and invites its name;
/// any other creation changes nothing. Every creation is acknowledged.
pub proof fn law_create_reply(s: ServerState, c: u64, g: Seq<char>, n: Seq<char>)
    requires
        s.wf(),
    ensures
        step(s, c, MessageView::Create { group: g }).1 == seq![(c, MessageView::Ack)],
        step(s, c, MessageView::Create { group: g }).0.users == s.users,
        (name_of_conn(s.users, c) == Some(n) && s.members(g).len() == 0) ==> {
            let t = step(s, c, MessageView::Create { group: g }).0;
            &&& t.members(g) == seq![c]
            &&& t.is_invited(g, n)
        },
        !(name_of_conn(s.users, c) is Some && s.members(g).len() == 0) ==> step(
            s,
            c,
            MessageView::Create { group: g },
        ).0 == s,
{
    lemma_entry_insert_wf(s.groups, g, c);
    if let Some(m) = name_of_conn(s.users, c) {
        lemma_entry_insert_wf(s.invites, g, m);
        lemma_set_insert_no_dup(set_of(s.invites, g), m);
    }
    if s.members(g).len() == 0 {
        assert(s.members(g).push(c) =~= seq![c]);
    }
}

/// An invitation from a member with a registered name records the invited
/// name and is forwarded to the connection registered for it, where there is
/// one; any other invitation changes nothing and is refused.
pub proof fn law_invite_reply(s: ServerState, c: u64, g: Seq<char>, u: Seq<char>)
    requires
        s.wf(),
    ensures
        (name_of_conn(s.users, c) is Some && s.is_member(g, c)) ==> {
            let (t, out) = step(s, c, MessageView::Invite { group: g, user: u });
            &&& t.is_invited(g, u)
            &&& t.users == s.users
            &&& t.groups == s.groups
            &&& out == match value_of(s.users, u) {
                Some(w) => seq![(w, MessageView::Invite { group: g, user: u })],
                None => Seq::empty(),
            }
        },
        !(name_of_conn(s.users, c) is Some && s.is_member(g, c)) ==> step(
            s,
            c,
            MessageView::Invite { group: g, user: u },
        ) == (
            s,
            seq![
                (
                    c,
                    MessageView::Error {
                        reason: "Autorizzazione negata: non sei membro del gruppo '"@ + g + "'"@,
                    },
                ),
            ],
        ),
{
    lemma_entry_insert_wf(s.invites, g, u);
    lemma_set_insert_no_dup(set_of(s.invites, g), u);
}

/// A refused text is answered with the refusal naming its group.
pub proof fn law_text_refusal(s: ServerState, c: u64, g: Seq<char>, from: Seq<char>, content: Seq<char>)
    requires
        !text_allowed(s, g, from),
    ensures
        step(s, c, MessageView::Text { group: g, from: from, content: content }) == (
            s,
            seq![
                (
                    c,
                    MessageView::Error {
                        reason: "Impossibile inviare: non sei membro del gruppo '"@ + g + "'"@,
                    },
                ),
            ],
        ),
{
}

/// The reply to a leave: every member that remains in the group, in order,
/// is told that the leaver's first registered name (or "qualcuno") left, and
/// the leaver is acknowledged last.
pub proof fn law_leave_reply(s: ServerState, c: u64, g: Seq<char>)
    requires
        s.wf(),
    ensures
        ({
            let out = step(s, c, MessageView::Leave { group: g }).1;
            let t = step(s, c, MessageView::Leave { group: g }).0;
            let who = match name_of_conn(s.users, c) {
                Some(n) => n,
                None => "qualcuno"@,
            };
            &&& out.last() == (c, MessageView::Ack)
            &&& out.len() == t.members(g).len() + 1
            &&& forall|i: int|
                0 <= i < t.members(g).len() ==> #[trigger] out[i] == (
                    t.members(g)[i],
                    MessageView::Text {
                        group: g,
                        from: "system"@,
                        content: who + " ha lasciato il gruppo"@,
                    },
                )
        }),
{
    lemma_entry_remove_wf(s.groups, g, c);
    if !has_key(s.groups, g) {
        reveal(Seq::filter);
    }
}

} // verus!
