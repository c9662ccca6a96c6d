//! The relay's connection-handler policy: how one inbound frame is answered
//! directly to its sender and what is fanned out to every subscriber. The
//! handler never re-encodes a chat message: the original raw frame is
//! forwarded verbatim, and frames the relay cannot parse are forwarded
//! verbatim too rather than discarded.

use vstd::prelude::*;
use vstd::string::StringExecFns;
use crate::text::{digit_char, int_chars, push_two_digits, chars_to_string, i64_dec_string};
use crate::protocol::{Message, RealtimePayload, PayloadView};
use crate::codec::{decode_payload, decode_payload_spec, encode_payload, encode_realtime_message,
    enc_ack_payload, enc_presence_payload, enc_message_payload};

verus! {

// ---------- wall-clock display time ----------

/// "HH:MM" for a time given in seconds: the hour of day and the minute of
/// the hour, each two digits.
pub open spec fn timestamp_chars(now_secs: nat) -> Seq<char> {
    let hours = (now_secs / 3600) % 24;
    let minutes = (now_secs / 60) % 60;
    seq![
        digit_char(hours / 10),
        digit_char(hours % 10),
        ':',
        digit_char(minutes / 10),
        digit_char(minutes % 10),
    ]
}

/// Formats a display timestamp from a count of seconds (as since the epoch).
pub fn format_timestamp_utc(now_secs: u64) -> (r: String)
    ensures
        r@ == timestamp_chars(now_secs as nat),
{
    let hours = (now_secs / 3600) % 24;
    let minutes = (now_secs / 60) % 60;
    let mut out: Vec<char> = Vec::new();
    push_two_digits(&mut out, hours);
    out.push(':');
    push_two_digits(&mut out, minutes);
    proof {
        assert(out@ =~= timestamp_chars(now_secs as nat));
    }
    chars_to_string(&out)
}

// ---------- the reaction policy ----------

/// What the handler does with one frame: an optional direct reply to the
/// originating peer and an optional frame to broadcast to every subscriber.
pub struct Reaction {
    pub reply: Option<String>,
    pub broadcast: Option<String>,
}

pub struct ReactionView {
    pub reply: Option<Seq<char>>,
    pub broadcast: Option<Seq<char>>,
}

impl View for Reaction {
    type V = ReactionView;

    open spec fn view(&self) -> ReactionView {
        ReactionView {
            reply: match self.reply {
                Some(ref t) => Some(t@),
                None => None,
            },
            broadcast: match self.broadcast {
                Some(ref t) => Some(t@),
                None => None,
            },
        }
    }
}

pub open spec fn ack_message_detail(author: Seq<char>, channel_id: int) -> Seq<char> {
    "stored for "@ + author + " in channel "@ + int_chars(channel_id)
}

/// The handler's full policy. A chat message is acknowledged to its sender
/// and the original raw text is re-broadcast verbatim. An auth frame is
/// acknowledged and announced as an online presence. Acks and presence
/// frames draw no reaction. An unparseable frame is broadcast verbatim.
pub open spec fn react_spec(s: Seq<char>) -> ReactionView {
    match decode_payload_spec(s) {
        Some(p) => match p {
            PayloadView::Message { author, channel_id, .. } => ReactionView {
                reply: Some(enc_ack_payload("message"@, ack_message_detail(author, channel_id))),
                broadcast: Some(s),
            },
            PayloadView::Auth { user, .. } => ReactionView {
                reply: Some(enc_ack_payload("auth"@, "welcome "@ + user)),
                broadcast: Some(enc_presence_payload(user, "online"@)),
            },
            PayloadView::Ack { .. } => ReactionView { reply: None, broadcast: None },
            PayloadView::Presence { .. } => ReactionView { reply: None, broadcast: None },
        },
        None => ReactionView { reply: None, broadcast: Some(s) },
    }
}

/// Decides the reaction to one inbound frame.
pub fn handler_react(text: &str) -> (r: Reaction)
    ensures
        r@ == react_spec(text@),
{
    match decode_payload(text) {
        Some(p) => match p {
            RealtimePayload::Message { author, channel_id, .. } => {
                let mut detail = String::from_str("stored for ");
                detail.append(author.as_str());
                detail.append(" in channel ");
                let chan = i64_dec_string(channel_id);
                detail.append(chan.as_str());
                let ack = RealtimePayload::Ack { kind: String::from_str("message"), detail };
                let reply = encode_payload(&ack);
                let mut raw = String::new();
                raw.append(text);
                proof {
                    assert(raw@ =~= text@);
                }
                Reaction { reply: Some(reply), broadcast: Some(raw) }
            },
            RealtimePayload::Auth { token: _, user } => {
                let mut detail = String::from_str("welcome ");
                detail.append(user.as_str());
                let ack = RealtimePayload::Ack { kind: String::from_str("auth"), detail };
                let reply = encode_payload(&ack);
                let presence = RealtimePayload::Presence {
                    user,
                    status: String::from_str("online"),
                };
                let broadcast = encode_payload(&presence);
                Reaction { reply: Some(reply), broadcast: Some(broadcast) }
            },
            RealtimePayload::Ack { .. } => Reaction { reply: None, broadcast: None },
            RealtimePayload::Presence { .. } => Reaction { reply: None, broadcast: None },
        },
        None => {
            let mut raw = String::new();
            raw.append(text);
            proof {
                assert(raw@ =~= text@);
            }
            Reaction { reply: None, broadcast: Some(raw) }
        },
    }
}

/// The greeting frame a handler sends directly to a freshly accepted peer.
pub fn welcome_frame(now_secs: u64) -> (r: String)
    ensures
        r@ == enc_message_payload(
            "ralph-bot"@,
            "Connected to mock server."@,
            timestamp_chars(now_secs as nat),
            1,
            Seq::empty(),
        ),
{
    let message = Message {
        id: 0,
        author: String::from_str("ralph-bot"),
        body: String::from_str("Connected to mock server."),
        sent_at: format_timestamp_utc(now_secs),
        channel_id: 1,
    };
    let r = encode_realtime_message(&message, Vec::new());
    proof {
        assert(crate::protocol::atts_view(Seq::<crate::protocol::RealtimeAttachment>::empty())
            =~= Seq::<crate::protocol::AttachmentView>::empty());
    }
    r
}

} // verus!
