//! Channels and the seeded demo content: the channel list the application
//! starts from, the seeded chat history, and the composer placeholder text
//! derived per channel.

use vstd::prelude::*;
use vstd::string::StringExecFns;
use std::collections::HashMap;
use crate::protocol::{ChannelKind, Message, MessageView};

verus! {

broadcast use vstd::std_specs::hash::group_hash_axioms;

#[derive(Clone, Debug)]
pub struct Channel {
    pub id: i64,
    pub name: String,
    pub kind: ChannelKind,
}

pub struct ChannelView {
    pub id: int,
    pub name: Seq<char>,
    pub kind: ChannelKind,
}

impl View for Channel {
    type V = ChannelView;

    open spec fn view(&self) -> ChannelView {
        ChannelView { id: self.id as int, name: self.name@, kind: self.kind }
    }
}

/// The composer strings for one channel: the input placeholder and the
/// typing notice shown while nobody local is typing.
#[derive(Clone, Debug)]
pub struct ComposerMeta {
    pub placeholder: String,
    pub typing_stub: String,
}

pub struct ComposerMetaView {
    pub placeholder: Seq<char>,
    pub typing_stub: Seq<char>,
}

impl View for ComposerMeta {
    type V = ComposerMetaView;

    open spec fn view(&self) -> ComposerMetaView {
        ComposerMetaView { placeholder: self.placeholder@, typing_stub: self.typing_stub@ }
    }
}

/// What the composer shows for a channel: ordinary channels get a `#` styled
/// placeholder and a fixed typing notice; direct messages get an `@` styled
/// placeholder and name the peer in the notice.
pub open spec fn composer_meta_for(c: ChannelView) -> ComposerMetaView {
    match c.kind {
        ChannelKind::Channel => ComposerMetaView {
            placeholder: "Message #"@ + c.name,
            typing_stub: "No one is typing."@,
        },
        ChannelKind::DirectMessage => ComposerMetaView {
            placeholder: "Message @"@ + c.name,
            typing_stub: c.name + " is typing..."@,
        },
    }
}

/// The composer table for a channel list, later entries winning on a
/// repeated id.
pub open spec fn composer_meta_map(chs: Seq<ChannelView>) -> Map<i64, ComposerMetaView>
    decreases chs.len(),
{
    if chs.len() == 0 {
        Map::empty()
    } else {
        composer_meta_map(chs.drop_last()).insert(
            chs.last().id as i64,
            composer_meta_for(chs.last()),
        )
    }
}

pub open spec fn channels_view(chs: Seq<Channel>) -> Seq<ChannelView> {
    chs.map_values(|c: Channel| c@)
}

fn composer_meta_of(channel: &Channel) -> (r: ComposerMeta)
    requires
        -0x8000000000000000 <= channel@.id <= 0x7fffffffffffffff,
    ensures
        r@ == composer_meta_for(channel@),
{
    match channel.kind {
        ChannelKind::Channel => {
            let mut placeholder = String::from_str("Message #");
            placeholder.append(channel.name.as_str());
            ComposerMeta { placeholder, typing_stub: String::from_str("No one is typing.") }
        },
        ChannelKind::DirectMessage => {
            let mut placeholder = String::from_str("Message @");
            placeholder.append(channel.name.as_str());
            let mut stub = channel.name.clone();
            stub.append(" is typing...");
            ComposerMeta { placeholder, typing_stub: stub }
        },
    }
}

/// Builds the composer table for a channel list; one entry per channel id,
/// the later channel winning when ids repeat.
pub fn build_composer_meta(channels: &Vec<Channel>) -> (m: HashMap<i64, ComposerMeta>)
    ensures
        m@.dom() =~= composer_meta_map(channels_view(channels@)).dom(),
        forall|k: i64|
            #[trigger] m@.contains_key(k) ==> m@[k]@ == composer_meta_map(
                channels_view(channels@),
            )[k],
{
    let ghost chv = channels_view(channels@);
    let mut m: HashMap<i64, ComposerMeta> = HashMap::new();
    let mut i: usize = 0;
    proof {
        assert(vstd::std_specs::hash::obeys_key_model::<i64>());
        assert(chv.take(0) =~= Seq::<ChannelView>::empty());
        assert(composer_meta_map(chv.take(0)) =~= Map::<i64, ComposerMetaView>::empty());
    }
    while i < channels.len()
        invariant
            vstd::std_specs::hash::obeys_key_model::<i64>(),
            i <= channels@.len(),
            chv == channels_view(channels@),
            m@.dom() =~= composer_meta_map(chv.take(i as int)).dom(),
            forall|k: i64|
                #[trigger] m@.contains_key(k) ==> m@[k]@ == composer_meta_map(
                    chv.take(i as int),
                )[k],
        decreases channels@.len() - i,
    {
        let meta = composer_meta_of(&channels[i]);
        m.insert(channels[i].id, meta);
        i = i + 1;
        proof {
            assert(chv.take(i as int) =~= chv.take(i - 1 as int).push(chv[i - 1 as int]));
            assert(chv.take(i as int).drop_last() =~= chv.take(i - 1 as int));
            assert(chv.take(i as int).last() == chv[i - 1 as int]);
        }
    }
    proof {
        assert(chv.take(channels@.len() as int) =~= chv);
    }
    m
}

/// The four channels the application starts with.
pub fn seed_channels() -> (r: Vec<(i64, &'static str, ChannelKind)>)
    ensures
        r@.len() == 4,
        r@[0].0 == 1 && r@[0].1@ == "general"@ && r@[0].2 is Channel,
        r@[1].0 == 2 && r@[1].1@ == "product"@ && r@[1].2 is Channel,
        r@[2].0 == 3 && r@[2].1@ == "mara"@ && r@[2].2 is DirectMessage,
        r@[3].0 == 4 && r@[3].1@ == "devin"@ && r@[3].2 is DirectMessage,
{
    let mut r: Vec<(i64, &'static str, ChannelKind)> = Vec::new();
    r.push((1, "general", ChannelKind::Channel));
    r.push((2, "product", ChannelKind::Channel));
    r.push((3, "mara", ChannelKind::DirectMessage));
    r.push((4, "devin", ChannelKind::DirectMessage));
    r
}

pub open spec fn seed_message_view(
    author: Seq<char>,
    body: Seq<char>,
    sent_at: Seq<char>,
    channel_id: int,
) -> MessageView {
    MessageView { id: 0, author, body, sent_at, channel_id }
}

/// The seeded chat history: eight messages across the four channels.
pub fn seed_messages() -> (r: Vec<Message>)
    ensures
        r@.len() == 8,
        r@[0]@ == seed_message_view("mara"@, "Shipping the new hotkey flow now."@, "09:12"@, 1),
        r@[1]@ == seed_message_view("devin"@, "Latency on local echo is <100ms."@, "09:13"@, 1),
        r@[2]@ == seed_message_view(
            "sasha"@,
            "Message search index warmed on startup."@,
            "09:15"@,
            1,
        ),
        r@[3]@ == seed_message_view("you"@, "Feels fast. Let's keep it lean."@, "09:18"@, 1),
        r@[4]@ == seed_message_view("mara"@, "Next: attachments + previews."@, "09:21"@, 2),
        r@[5]@ == seed_message_view("devin"@, "Profiling idle CPU now."@, "09:24"@, 2),
        r@[6]@ == seed_message_view("mara"@, "Can you sanity-check the build flags?"@, "09:26"@, 3),
        r@[7]@ == seed_message_view("devin"@, "Want me to share flamegraph results?"@, "09:28"@, 4),
{
    let mut r: Vec<Message> = Vec::new();
    r.push(
        Message {
            id: 0,
            author: String::from_str("mara"),
            body: String::from_str("Shipping the new hotkey flow now."),
            sent_at: String::from_str("09:12"),
            channel_id: 1,
        },
    );
    r.push(
        Message {
            id: 0,
            author: String::from_str("devin"),
            body: String::from_str("Latency on local echo is <100ms."),
            sent_at: String::from_str("09:13"),
            channel_id: 1,
        },
    );
    r.push(
        Message {
            id: 0,
            author: String::from_str("sasha"),
            body: String::from_str("Message search index warmed on startup."),
            sent_at: String::from_str("09:15"),
            channel_id: 1,
        },
    );
    r.push(
        Message {
            id: 0,
            author: String::from_str("you"),
            body: String::from_str("Feels fast. Let's keep it lean."),
            sent_at: String::from_str("09:18"),
            channel_id: 1,
        },
    );
    r.push(
        Message {
            id: 0,
            author: String::from_str("mara"),
            body: String::from_str("Next: attachments + previews."),
            sent_at: String::from_str("09:21"),
            channel_id: 2,
        },
    );
    r.push(
        Message {
            id: 0,
            author: String::from_str("devin"),
            body: String::from_str("Profiling idle CPU now."),
            sent_at: String::from_str("09:24"),
            channel_id: 2,
        },
    );
    r.push(
        Message {
            id: 0,
            author: String::from_str("mara"),
            body: String::from_str("Can you sanity-check the build flags?"),
            sent_at: String::from_str("09:26"),
            channel_id: 3,
        },
    );
    r.push(
        Message {
            id: 0,
            author: String::from_str("devin"),
            body: String::from_str("Want me to share flamegraph results?"),
            sent_at: String::from_str("09:28"),
            channel_id: 4,
        },
    );
    r
}

} // verus!
