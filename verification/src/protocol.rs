//! The transport's data model: chat messages, attachments, presence, the
//! command and event records exchanged between a session's owner and its
//! worker, and the tagged wire payload.

use vstd::prelude::*;
use crate::text::str_eq;

verus! {

// ---------- channel kinds ----------

#[derive(Clone, Copy, PartialEq, Eq, Structural, Debug)]
pub enum ChannelKind {
    Channel,
    DirectMessage,
}

pub open spec fn kind_label(k: ChannelKind) -> Seq<char> {
    match k {
        ChannelKind::Channel => "channel"@,
        ChannelKind::DirectMessage => "dm"@,
    }
}

/// The stored label "dm" names a direct message; every other label is read
/// as an ordinary channel.
pub open spec fn kind_of_label(s: Seq<char>) -> ChannelKind {
    if s == "dm"@ {
        ChannelKind::DirectMessage
    } else {
        ChannelKind::Channel
    }
}

impl ChannelKind {
    pub fn as_str(self) -> (r: &'static str)
        ensures
            r@ == kind_label(self),
    {
        match self {
            ChannelKind::Channel => "channel",
            ChannelKind::DirectMessage => "dm",
        }
    }

    pub fn from_str(value: &str) -> (r: Self)
        ensures
            r == kind_of_label(value@),
    {
        proof {
            reveal_strlit("channel");
            reveal_strlit("dm");
        }
        if str_eq(value, "dm") {
            ChannelKind::DirectMessage
        } else {
            ChannelKind::Channel
        }
    }
}

/// A kind's label always reads back as the same kind.
pub proof fn lemma_kind_label_round_trip(k: ChannelKind)
    ensures
        kind_of_label(kind_label(k)) == k,
{
    reveal_strlit("channel");
    reveal_strlit("dm");
    assert("channel"@.len() != "dm"@.len());
}

// ---------- session status ----------

#[derive(Clone, Copy, PartialEq, Eq, Structural, Debug)]
pub enum RealtimeStatus {
    Disconnected,
    Connecting,
    Connected,
}

pub open spec fn status_label(s: RealtimeStatus) -> Seq<char> {
    match s {
        RealtimeStatus::Disconnected => "Disconnected"@,
        RealtimeStatus::Connecting => "Connecting"@,
        RealtimeStatus::Connected => "Connected"@,
    }
}

impl RealtimeStatus {
    pub fn label(self) -> (r: &'static str)
        ensures
            r@ == status_label(self),
    {
        match self {
            RealtimeStatus::Disconnected => "Disconnected",
            RealtimeStatus::Connecting => "Connecting",
            RealtimeStatus::Connected => "Connected",
        }
    }
}

// ---------- presence ----------

#[derive(Clone, Copy, PartialEq, Eq, Structural, Debug)]
pub enum PresenceStatus {
    Online,
    Away,
    Offline,
    Unknown,
}

pub open spec fn lower_char(c: char) -> char {
    if 65 <= c as u32 && c as u32 <= 90 {
        ((c as u32 + 32) as u32) as char
    } else {
        c
    }
}

pub open spec fn lower_seq(s: Seq<char>) -> Seq<char> {
    s.map_values(|c: char| lower_char(c))
}

/// Free-text presence labels are normalized case-insensitively into the four
/// known statuses; anything unrecognized is `Unknown`.
pub open spec fn presence_of_label(s: Seq<char>) -> PresenceStatus {
    if lower_seq(s) == "online"@ {
        PresenceStatus::Online
    } else if lower_seq(s) == "away"@ {
        PresenceStatus::Away
    } else if lower_seq(s) == "offline"@ {
        PresenceStatus::Offline
    } else {
        PresenceStatus::Unknown
    }
}

pub open spec fn presence_label(p: PresenceStatus) -> Seq<char> {
    match p {
        PresenceStatus::Online => "online"@,
        PresenceStatus::Away => "away"@,
        PresenceStatus::Offline => "offline"@,
        PresenceStatus::Unknown => "unknown"@,
    }
}

// compares a string against an all-lowercase ASCII pattern, ignoring case
fn eq_ignore_case(value: &str, pattern: &str) -> (r: bool)
    ensures
        r == (lower_seq(value@) == pattern@),
{
    let vn = value.unicode_len();
    let pn = pattern.unicode_len();
    if vn != pn {
        proof {
            assert(lower_seq(value@).len() == value@.len());
        }
        return false;
    }
    let mut i: usize = 0;
    while i < vn
        invariant
            vn == value@.len(),
            vn == pattern@.len(),
            i <= vn,
            forall|j: int| 0 <= j < i ==> lower_char(value@[j]) == pattern@[j],
        decreases vn - i,
    {
        let c = value.get_char(i) as u32;
        let lowered: u32 = if 65 <= c && c <= 90 {
            c + 32
        } else {
            c
        };
        if lowered != pattern.get_char(i) as u32 {
            proof {
                assert(lower_char(value@[i as int]) as u32 == lowered);
            }
            return false;
        }
        proof {
            assert(lower_char(value@[i as int]) as u32 == lowered);
            assert(lower_char(value@[i as int]) == pattern@[i as int]);
        }
        i = i + 1;
    }
    proof {
        assert(lower_seq(value@) =~= pattern@);
    }
    true
}

impl PresenceStatus {
    pub fn from_str(value: &str) -> (r: Self)
        ensures
            r == presence_of_label(value@),
    {
        if eq_ignore_case(value, "online") {
            PresenceStatus::Online
        } else if eq_ignore_case(value, "away") {
            PresenceStatus::Away
        } else if eq_ignore_case(value, "offline") {
            PresenceStatus::Offline
        } else {
            PresenceStatus::Unknown
        }
    }

    pub fn label(self) -> (r: &'static str)
        ensures
            r@ == presence_label(self),
    {
        match self {
            PresenceStatus::Online => "online",
            PresenceStatus::Away => "away",
            PresenceStatus::Offline => "offline",
            PresenceStatus::Unknown => "unknown",
        }
    }
}

// ---------- chat messages and attachments ----------

#[derive(Clone, Debug, PartialEq, Eq)]
pub struct Message {
    pub id: i64,
    pub author: String,
    pub body: String,
    pub sent_at: String,
    pub channel_id: i64,
}

pub struct MessageView {
    pub id: int,
    pub author: Seq<char>,
    pub body: Seq<char>,
    pub sent_at: Seq<char>,
    pub channel_id: int,
}

impl View for Message {
    type V = MessageView;

    open spec fn view(&self) -> MessageView {
        MessageView {
            id: self.id as int,
            author: self.author@,
            body: self.body@,
            sent_at: self.sent_at@,
            channel_id: self.channel_id as int,
        }
    }
}

#[derive(Clone, Debug, PartialEq, Eq)]
pub struct RealtimeAttachment {
    pub file_path: String,
    pub file_name: String,
    pub file_size: i64,
    pub kind: String,
}

pub struct AttachmentView {
    pub file_path: Seq<char>,
    pub file_name: Seq<char>,
    pub file_size: int,
    pub kind: Seq<char>,
}

impl View for RealtimeAttachment {
    type V = AttachmentView;

    open spec fn view(&self) -> AttachmentView {
        AttachmentView {
            file_path: self.file_path@,
            file_name: self.file_name@,
            file_size: self.file_size as int,
            kind: self.kind@,
        }
    }
}

pub open spec fn atts_view(v: Seq<RealtimeAttachment>) -> Seq<AttachmentView> {
    v.map_values(|a: RealtimeAttachment| a@)
}

#[derive(Clone, Debug, PartialEq, Eq)]
pub struct IncomingMessage {
    pub message: Message,
    pub attachments: Vec<RealtimeAttachment>,
}

pub struct IncomingView {
    pub message: MessageView,
    pub attachments: Seq<AttachmentView>,
}

impl View for IncomingMessage {
    type V = IncomingView;

    open spec fn view(&self) -> IncomingView {
        IncomingView { message: self.message@, attachments: atts_view(self.attachments@) }
    }
}

#[derive(Clone, Debug, PartialEq, Eq)]
pub struct PresenceUpdate {
    pub user: String,
    pub status: String,
}

pub struct PresenceUpdateView {
    pub user: Seq<char>,
    pub status: Seq<char>,
}

impl View for PresenceUpdate {
    type V = PresenceUpdateView;

    open spec fn view(&self) -> PresenceUpdateView {
        PresenceUpdateView { user: self.user@, status: self.status@ }
    }
}

// ---------- owner-to-worker commands ----------

#[derive(Debug)]
pub enum RealtimeCommand {
    Connect,
    Disconnect,
    SendMessage {
        author: String,
        body: String,
        sent_at: String,
        channel_id: i64,
        attachments: Vec<RealtimeAttachment>,
    },
}

pub enum CommandView {
    Connect,
    Disconnect,
    SendMessage {
        author: Seq<char>,
        body: Seq<char>,
        sent_at: Seq<char>,
        channel_id: int,
        attachments: Seq<AttachmentView>,
    },
}

impl View for RealtimeCommand {
    type V = CommandView;

    open spec fn view(&self) -> CommandView {
        match self {
            RealtimeCommand::Connect => CommandView::Connect,
            RealtimeCommand::Disconnect => CommandView::Disconnect,
            RealtimeCommand::SendMessage { author, body, sent_at, channel_id, attachments } => {
                CommandView::SendMessage {
                    author: author@,
                    body: body@,
                    sent_at: sent_at@,
                    channel_id: *channel_id as int,
                    attachments: atts_view(attachments@),
                }
            },
        }
    }
}

// ---------- worker-to-owner events ----------

#[derive(Debug)]
pub struct RealtimeEvent {
    pub status: RealtimeStatus,
    pub message: Option<String>,
    pub error: Option<String>,
    pub inbound: Option<IncomingMessage>,
    pub presence: Option<PresenceUpdate>,
}

pub struct EventView {
    pub status: RealtimeStatus,
    pub message: Option<Seq<char>>,
    pub error: Option<Seq<char>>,
    pub inbound: Option<IncomingView>,
    pub presence: Option<PresenceUpdateView>,
}

pub open spec fn opt_str_view(o: Option<String>) -> Option<Seq<char>> {
    match o {
        Some(s) => Some(s@),
        None => None,
    }
}

impl View for RealtimeEvent {
    type V = EventView;

    open spec fn view(&self) -> EventView {
        EventView {
            status: self.status,
            message: opt_str_view(self.message),
            error: opt_str_view(self.error),
            inbound: match self.inbound {
                Some(ref m) => Some(m@),
                None => None,
            },
            presence: match self.presence {
                Some(ref p) => Some(p@),
                None => None,
            },
        }
    }
}

impl EventView {
    /// An event never carries contradictory parts: payloads ride only on
    /// Connected status events.
    pub open spec fn wf(self) -> bool {
        &&& self.inbound is Some ==> self.status is Connected
        &&& self.presence is Some ==> self.status is Connected
    }
}

// ---------- the tagged wire payload ----------

#[derive(Clone, Debug, PartialEq, Eq)]
pub enum RealtimePayload {
    Message {
        author: String,
        body: String,
        sent_at: String,
        channel_id: i64,
        client_id: Option<String>,
        attachments: Vec<RealtimeAttachment>,
    },
    Auth {
        token: String,
        user: String,
    },
    Ack {
        kind: String,
        detail: String,
    },
    Presence {
        user: String,
        status: String,
    },
}

pub enum PayloadView {
    Message {
        author: Seq<char>,
        body: Seq<char>,
        sent_at: Seq<char>,
        channel_id: int,
        client_id: Option<Seq<char>>,
        attachments: Seq<AttachmentView>,
    },
    Auth {
        token: Seq<char>,
        user: Seq<char>,
    },
    Ack {
        kind: Seq<char>,
        detail: Seq<char>,
    },
    Presence {
        user: Seq<char>,
        status: Seq<char>,
    },
}

impl View for RealtimePayload {
    type V = PayloadView;

    open spec fn view(&self) -> PayloadView {
        match self {
            RealtimePayload::Message {
                author,
                body,
                sent_at,
                channel_id,
                client_id,
                attachments,
            } => PayloadView::Message {
                author: author@,
                body: body@,
                sent_at: sent_at@,
                channel_id: *channel_id as int,
                client_id: opt_str_view(*client_id),
                attachments: atts_view(attachments@),
            },
            RealtimePayload::Auth { token, user } => PayloadView::Auth {
                token: token@,
                user: user@,
            },
            RealtimePayload::Ack { kind, detail } => PayloadView::Ack {
                kind: kind@,
                detail: detail@,
            },
            RealtimePayload::Presence { user, status } => PayloadView::Presence {
                user: user@,
                status: status@,
            },
        }
    }
}

impl RealtimePayload {
    /// Builds the `Message` payload for an outgoing chat message; the client
    /// identifier is reserved and never populated.
    pub fn from_message(message: &Message, attachments: Vec<RealtimeAttachment>) -> (r: Self)
        ensures
            r@ == (PayloadView::Message {
                author: message@.author,
                body: message@.body,
                sent_at: message@.sent_at,
                channel_id: message@.channel_id,
                client_id: None::<Seq<char>>,
                attachments: atts_view(attachments@),
            }),
    {
        RealtimePayload::Message {
            author: message.author.clone(),
            body: message.body.clone(),
            sent_at: message.sent_at.clone(),
            channel_id: message.channel_id,
            client_id: None,
            attachments,
        }
    }

    /// A `Message` payload becomes an incoming chat message with a fresh
    /// (zero) local id; every other payload carries no chat message.
    pub fn into_message(self) -> (r: Option<IncomingMessage>)
        ensures
            match self@ {
                PayloadView::Message {
                    author,
                    body,
                    sent_at,
                    channel_id,
                    client_id,
                    attachments,
                } => {
                    &&& r is Some
                    &&& r->0@.message.id == 0
                    &&& r->0@.message.author == author
                    &&& r->0@.message.body == body
                    &&& r->0@.message.sent_at == sent_at
                    &&& r->0@.message.channel_id == channel_id
                    &&& r->0@.attachments == attachments
                },
                _ => r is None,
            },
    {
        match self {
            RealtimePayload::Message {
                author,
                body,
                sent_at,
                channel_id,
                client_id: _,
                attachments,
            } => Some(IncomingMessage {
                message: Message { id: 0, author, body, sent_at, channel_id },
                attachments,
            }),
            _ => None,
        }
    }
}

// ---------- decoded inbound frames ----------

#[derive(Debug)]
pub enum RealtimeInbound {
    Message(IncomingMessage),
    Presence { user: String, status: String },
    Signal(String),
}

pub enum InboundView {
    Message(IncomingView),
    Presence { user: Seq<char>, status: Seq<char> },
    Signal(Seq<char>),
}

impl View for RealtimeInbound {
    type V = InboundView;

    open spec fn view(&self) -> InboundView {
        match self {
            RealtimeInbound::Message(m) => InboundView::Message(m@),
            RealtimeInbound::Presence { user, status } => InboundView::Presence {
                user: user@,
                status: status@,
            },
            RealtimeInbound::Signal(s) => InboundView::Signal(s@),
        }
    }
}

} // verus!
