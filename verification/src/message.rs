use vstd::prelude::*;

verus! {

/// The messages that clients and the server exchange, one per line.
#[derive(Debug, Clone, PartialEq, Eq)]
pub enum Message {
    Login { username: String },
    /// A user joins a group.
    Join { username: String, group: String },
    /// Invites a user into a group.
    Invite { group: String, user: String },
    /// Text sent to a group.
    Text { group: String, from: String, content: String },
    /// Generic acknowledgement.
    Ack,
    /// An error with its reason.
    Error { reason: String },
    Create { group: String },
    Leave { group: String },
}

/// The mathematical value of a [`Message`]: each string taken as its characters.
pub enum MessageView {
    Login { username: Seq<char> },
    Join { username: Seq<char>, group: Seq<char> },
    Invite { group: Seq<char>, user: Seq<char> },
    Text { group: Seq<char>, from: Seq<char>, content: Seq<char> },
    Ack,
    Error { reason: Seq<char> },
    Create { group: Seq<char> },
    Leave { group: Seq<char> },
}

impl View for Message {
    type V = MessageView;

    open spec fn view(&self) -> MessageView {
        match self {
            Message::Login { username } => MessageView::Login { username: username@ },
            Message::Join { username, group } => MessageView::Join {
                username: username@,
                group: group@,
            },
            Message::Invite { group, user } => MessageView::Invite { group: group@, user: user@ },
            Message::Text { group, from, content } => MessageView::Text {
                group: group@,
                from: from@,
                content: content@,
            },
            Message::Ack => MessageView::Ack,
            Message::Error { reason } => MessageView::Error { reason: reason@ },
            Message::Create { group } => MessageView::Create { group: group@ },
            Message::Leave { group } => MessageView::Leave { group: group@ },
        }
    }
}

} // verus!
