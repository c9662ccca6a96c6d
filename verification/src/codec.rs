//! The wire codec. Outgoing chat messages are encoded as the `message`
//! variant of the tagged frame format; inbound frames are decoded against
//! the four tagged variants, with a legacy tab-separated fallback when the
//! structured decode fails.

use vstd::prelude::*;
use vstd::string::StringExecFns;
use crate::text::{escape_seq, int_chars, push_escaped_str, push_str_chars, push_i64_dec,
    chars_to_string, str_to_chars, vec_slice, x_find_char, find_char, all_digits, digits_val,
    is_digit, char_is_digit, char_digit_of, pow10, lemma_pow10_19, lemma_pow10_mono,
    lemma_digits_val_bound, lemma_digits_val_snoc, lemma_digits_val_leading_zero};
use crate::json::{ScalarVal, TopVal, JsonScalar, JsonTopVal, pairs_view, fields_view,
    parse_frame, x_parse_frame};
use crate::protocol::{Message, MessageView, RealtimeAttachment, AttachmentView, atts_view,
    IncomingMessage, IncomingView, RealtimePayload, PayloadView, RealtimeInbound, InboundView,
    opt_str_view};

verus! {

// ---------- the canonical encoding ----------

pub open spec fn enc_str(s: Seq<char>) -> Seq<char> {
    seq!['"'] + escape_seq(s) + seq!['"']
}

pub open spec fn enc_att(a: AttachmentView) -> Seq<char> {
    "{\"file_path\":"@ + enc_str(a.file_path) + ",\"file_name\":"@ + enc_str(a.file_name)
        + ",\"file_size\":"@ + int_chars(a.file_size) + ",\"kind\":"@ + enc_str(a.kind) + "}"@
}

pub open spec fn enc_atts(atts: Seq<AttachmentView>) -> Seq<char>
    decreases atts.len(),
{
    if atts.len() == 0 {
        Seq::empty()
    } else if atts.len() == 1 {
        enc_att(atts[0])
    } else {
        enc_att(atts[0]) + ","@ + enc_atts(atts.drop_first())
    }
}

/// The encoded `message` frame; the attachment list is present only when it
/// is non-empty, and the reserved client identifier is always null.
pub open spec fn enc_message_payload(
    author: Seq<char>,
    body: Seq<char>,
    sent_at: Seq<char>,
    channel_id: int,
    attachments: Seq<AttachmentView>,
) -> Seq<char> {
    let head = "{\"type\":\"message\",\"author\":"@ + enc_str(author) + ",\"body\":"@ + enc_str(
        body,
    ) + ",\"sent_at\":"@ + enc_str(sent_at) + ",\"channel_id\":"@ + int_chars(channel_id)
        + ",\"client_id\":null"@;
    if attachments.len() == 0 {
        head + "}"@
    } else {
        head + ",\"attachments\":["@ + enc_atts(attachments) + "]"@ + "}"@
    }
}

pub open spec fn enc_auth_payload(token: Seq<char>, user: Seq<char>) -> Seq<char> {
    "{\"type\":\"auth\",\"token\":"@ + enc_str(token) + ",\"user\":"@ + enc_str(user) + "}"@
}

pub open spec fn enc_ack_payload(kind: Seq<char>, detail: Seq<char>) -> Seq<char> {
    "{\"type\":\"ack\",\"kind\":"@ + enc_str(kind) + ",\"detail\":"@ + enc_str(detail) + "}"@
}

pub open spec fn enc_presence_payload(user: Seq<char>, status: Seq<char>) -> Seq<char> {
    "{\"type\":\"presence\",\"user\":"@ + enc_str(user) + ",\"status\":"@ + enc_str(status)
        + "}"@
}

pub open spec fn enc_payload(p: PayloadView) -> Seq<char> {
    match p {
        PayloadView::Message { author, body, sent_at, channel_id, client_id, attachments } =>
            enc_message_payload(author, body, sent_at, channel_id, attachments),
        PayloadView::Auth { token, user } => enc_auth_payload(token, user),
        PayloadView::Ack { kind, detail } => enc_ack_payload(kind, detail),
        PayloadView::Presence { user, status } => enc_presence_payload(user, status),
    }
}

// ---------- executable encoder ----------

fn push_json_string(out: &mut Vec<char>, t: &str)
    ensures
        final(out)@ == old(out)@ + enc_str(t@),
{
    out.push('"');
    push_escaped_str(out, t);
    out.push('"');
    proof {
        assert(out@ =~= old(out)@ + enc_str(t@));
    }
}

proof fn lemma_enc_atts_snoc(atts: Seq<AttachmentView>, a: AttachmentView)
    ensures
        enc_atts(atts.push(a)) == if atts.len() == 0 {
            enc_att(a)
        } else {
            enc_atts(atts) + ","@ + enc_att(a)
        },
    decreases atts.len(),
{
    if atts.len() == 0 {
        assert(atts.push(a) =~= seq![a]);
        assert(enc_atts(seq![a]) == enc_att(a));
    } else {
        lemma_enc_atts_snoc(atts.drop_first(), a);
        assert(atts.push(a).drop_first() =~= atts.drop_first().push(a));
        assert(atts.push(a)[0] == atts[0]);
        assert(atts.push(a).len() == atts.len() + 1);
        if atts.len() == 1 {
            assert(atts.drop_first().len() == 0);
            assert(enc_atts(atts) == enc_att(atts[0]));
            assert(enc_atts(atts.push(a)) =~= enc_atts(atts) + ","@ + enc_att(a));
        } else {
            assert(enc_atts(atts) == enc_att(atts[0]) + ","@ + enc_atts(atts.drop_first()));
            assert(enc_atts(atts.push(a)) =~= enc_atts(atts) + ","@ + enc_att(a));
        }
    }
}

fn att_chars(a: &RealtimeAttachment) -> (r: Vec<char>)
    ensures
        r@ == enc_att(a@),
{
    let mut out: Vec<char> = Vec::new();
    push_str_chars(&mut out, "{\"file_path\":");
    proof {
        assert(out@ =~= "{\"file_path\":"@);
    }
    push_json_string(&mut out, a.file_path.as_str());
    push_str_chars(&mut out, ",\"file_name\":");
    push_json_string(&mut out, a.file_name.as_str());
    push_str_chars(&mut out, ",\"file_size\":");
    push_i64_dec(&mut out, a.file_size);
    push_str_chars(&mut out, ",\"kind\":");
    push_json_string(&mut out, a.kind.as_str());
    push_str_chars(&mut out, "}");
    out
}

fn push_attachments(out: &mut Vec<char>, atts: &Vec<RealtimeAttachment>)
    ensures
        final(out)@ == old(out)@ + enc_atts(atts_view(atts@)),
{
    let mut i: usize = 0;
    proof {
        assert(atts_view(atts@).take(0) =~= Seq::<AttachmentView>::empty());
        assert(out@ =~= old(out)@ + enc_atts(atts_view(atts@).take(0)));
    }
    while i < atts.len()
        invariant
            i <= atts@.len(),
            out@ == old(out)@ + enc_atts(atts_view(atts@).take(i as int)),
        decreases atts@.len() - i,
    {
        if i > 0 {
            push_str_chars(out, ",");
        }
        let mut one = att_chars(&atts[i]);
        out.append(&mut one);
        i = i + 1;
        proof {
            let prev = atts_view(atts@).take(i - 1 as int);
            assert(atts_view(atts@).take(i as int) =~= prev.push(atts@[i - 1 as int]@));
            lemma_enc_atts_snoc(prev, atts@[i - 1 as int]@);
            assert(out@ =~= old(out)@ + enc_atts(atts_view(atts@).take(i as int)));
        }
    }
    proof {
        assert(atts_view(atts@).take(atts@.len() as int) =~= atts_view(atts@));
    }
}

/// Encodes any payload into its canonical frame text.
pub fn encode_payload(p: &RealtimePayload) -> (r: String)
    ensures
        r@ == enc_payload(p@),
{
    let mut out: Vec<char> = Vec::new();
    match p {
        RealtimePayload::Message { author, body, sent_at, channel_id, client_id: _, attachments } => {
            push_str_chars(&mut out, "{\"type\":\"message\",\"author\":");
            proof {
                assert(out@ =~= "{\"type\":\"message\",\"author\":"@);
            }
            push_json_string(&mut out, author.as_str());
            push_str_chars(&mut out, ",\"body\":");
            push_json_string(&mut out, body.as_str());
            push_str_chars(&mut out, ",\"sent_at\":");
            push_json_string(&mut out, sent_at.as_str());
            push_str_chars(&mut out, ",\"channel_id\":");
            push_i64_dec(&mut out, *channel_id);
            push_str_chars(&mut out, ",\"client_id\":null");
            if attachments.len() > 0 {
                push_str_chars(&mut out, ",\"attachments\":[");
                push_attachments(&mut out, attachments);
                push_str_chars(&mut out, "]");
                push_str_chars(&mut out, "}");
            } else {
                push_str_chars(&mut out, "}");
            }
            proof {
                assert(atts_view(attachments@).len() == attachments@.len());
            }
        },
        RealtimePayload::Auth { token, user } => {
            push_str_chars(&mut out, "{\"type\":\"auth\",\"token\":");
            proof {
                assert(out@ =~= "{\"type\":\"auth\",\"token\":"@);
            }
            push_json_string(&mut out, token.as_str());
            push_str_chars(&mut out, ",\"user\":");
            push_json_string(&mut out, user.as_str());
            push_str_chars(&mut out, "}");
        },
        RealtimePayload::Ack { kind, detail } => {
            push_str_chars(&mut out, "{\"type\":\"ack\",\"kind\":");
            proof {
                assert(out@ =~= "{\"type\":\"ack\",\"kind\":"@);
            }
            push_json_string(&mut out, kind.as_str());
            push_str_chars(&mut out, ",\"detail\":");
            push_json_string(&mut out, detail.as_str());
            push_str_chars(&mut out, "}");
        },
        RealtimePayload::Presence { user, status } => {
            push_str_chars(&mut out, "{\"type\":\"presence\",\"user\":");
            proof {
                assert(out@ =~= "{\"type\":\"presence\",\"user\":"@);
            }
            push_json_string(&mut out, user.as_str());
            push_str_chars(&mut out, ",\"status\":");
            push_json_string(&mut out, status.as_str());
            push_str_chars(&mut out, "}");
        },
    }
    chars_to_string(&out)
}

/// Encodes an outgoing chat message and its attachments as a `message` frame.
pub fn encode_realtime_message(message: &Message, attachments: Vec<RealtimeAttachment>) -> (r:
    String)
    ensures
        r@ == enc_message_payload(
            message@.author,
            message@.body,
            message@.sent_at,
            message@.channel_id,
            atts_view(attachments@),
        ),
{
    let payload = RealtimePayload::from_message(message, attachments);
    encode_payload(&payload)
}

// ---------- reading fields out of a parsed frame ----------

pub open spec fn lookup_field(fields: Seq<(Seq<char>, TopVal)>, key: Seq<char>) -> Option<TopVal>
    decreases fields.len(),
{
    if fields.len() == 0 {
        None
    } else if fields[0].0 == key {
        Some(fields[0].1)
    } else {
        lookup_field(fields.drop_first(), key)
    }
}

pub open spec fn field_str(fields: Seq<(Seq<char>, TopVal)>, key: Seq<char>) -> Option<Seq<char>> {
    match lookup_field(fields, key) {
        Some(TopVal::Scalar(ScalarVal::Str(t))) => Some(t),
        _ => None,
    }
}

pub open spec fn field_int(fields: Seq<(Seq<char>, TopVal)>, key: Seq<char>) -> Option<int> {
    match lookup_field(fields, key) {
        Some(TopVal::Scalar(ScalarVal::Int(n))) => Some(n),
        _ => None,
    }
}

/// The optional client identifier: absent or null are both read as "none",
/// a string is kept, and any other shape is a decode failure.
pub open spec fn field_client_id(fields: Seq<(Seq<char>, TopVal)>) -> Option<Option<Seq<char>>> {
    match lookup_field(fields, "client_id"@) {
        None => Some(None),
        Some(TopVal::Scalar(ScalarVal::Null)) => Some(None),
        Some(TopVal::Scalar(ScalarVal::Str(t))) => Some(Some(t)),
        _ => None,
    }
}

pub open spec fn lookup_pair(o: Seq<(Seq<char>, ScalarVal)>, key: Seq<char>) -> Option<ScalarVal>
    decreases o.len(),
{
    if o.len() == 0 {
        None
    } else if o[0].0 == key {
        Some(o[0].1)
    } else {
        lookup_pair(o.drop_first(), key)
    }
}

pub open spec fn pair_str(o: Seq<(Seq<char>, ScalarVal)>, key: Seq<char>) -> Option<Seq<char>> {
    match lookup_pair(o, key) {
        Some(ScalarVal::Str(t)) => Some(t),
        _ => None,
    }
}

pub open spec fn pair_int(o: Seq<(Seq<char>, ScalarVal)>, key: Seq<char>) -> Option<int> {
    match lookup_pair(o, key) {
        Some(ScalarVal::Int(n)) => Some(n),
        _ => None,
    }
}

/// An attachment requires all four of its fields with the right types.
pub open spec fn att_of_pairs(o: Seq<(Seq<char>, ScalarVal)>) -> Option<AttachmentView> {
    match (pair_str(o, "file_path"@), pair_str(o, "file_name"@), pair_int(o, "file_size"@),
    pair_str(o, "kind"@)) {
        (Some(p), Some(n), Some(z), Some(k)) => Some(
            AttachmentView { file_path: p, file_name: n, file_size: z, kind: k },
        ),
        _ => None,
    }
}

pub open spec fn atts_of_objs(objs: Seq<Seq<(Seq<char>, ScalarVal)>>) -> Option<
    Seq<AttachmentView>,
>
    decreases objs.len(),
{
    if objs.len() == 0 {
        Some(Seq::empty())
    } else {
        match (att_of_pairs(objs[0]), atts_of_objs(objs.drop_first())) {
            (Some(a), Some(rest)) => Some(seq![a] + rest),
            _ => None,
        }
    }
}

/// The attachment list: absent means empty, an array is read object by
/// object, and any other shape is a decode failure.
pub open spec fn field_attachments(fields: Seq<(Seq<char>, TopVal)>) -> Option<
    Seq<AttachmentView>,
> {
    match lookup_field(fields, "attachments"@) {
        None => Some(Seq::empty()),
        Some(TopVal::Objs(objs)) => atts_of_objs(objs),
        _ => None,
    }
}

/// A parsed frame becomes a payload exactly when its `type` field is one of
/// the four known tags and every field that tag requires is present with the
/// right type; unknown extra fields are ignored, as long as their values lie
/// within the wire grammar (a value outside it already fails the parse).
pub open spec fn payload_of_fields(fields: Seq<(Seq<char>, TopVal)>) -> Option<PayloadView> {
    match field_str(fields, "type"@) {
        Some(t) => if t == "message"@ {
            match (field_str(fields, "author"@), field_str(fields, "body"@), field_str(
                fields,
                "sent_at"@,
            ), field_int(fields, "channel_id"@), field_client_id(fields), field_attachments(
                fields,
            )) {
                (Some(author), Some(body), Some(sent_at), Some(cid), Some(client), Some(atts)) =>
                    Some(
                    PayloadView::Message {
                        author,
                        body,
                        sent_at,
                        channel_id: cid,
                        client_id: client,
                        attachments: atts,
                    },
                ),
                _ => None,
            }
        } else if t == "auth"@ {
            match (field_str(fields, "token"@), field_str(fields, "user"@)) {
                (Some(token), Some(user)) => Some(PayloadView::Auth { token, user }),
                _ => None,
            }
        } else if t == "ack"@ {
            match (field_str(fields, "kind"@), field_str(fields, "detail"@)) {
                (Some(kind), Some(detail)) => Some(PayloadView::Ack { kind, detail }),
                _ => None,
            }
        } else if t == "presence"@ {
            match (field_str(fields, "user"@), field_str(fields, "status"@)) {
                (Some(user), Some(status)) => Some(PayloadView::Presence { user, status }),
                _ => None,
            }
        } else {
            None
        },
        None => None,
    }
}

/// What the structured decode of a frame yields, if anything.
pub open spec fn decode_payload_spec(s: Seq<char>) -> Option<PayloadView> {
    match parse_frame(s) {
        Some(fields) => payload_of_fields(fields),
        None => None,
    }
}

} // verus!

verus! {

// ---------- executable field interpretation ----------

fn x_lookup_from(fields: &Vec<(Vec<char>, JsonTopVal)>, from: usize, key: &str) -> (r: Option<
    usize,
>)
    requires
        from <= fields@.len(),
    ensures
        match r {
            Some(i) => from <= i < fields@.len() && lookup_field(
                fields_view(fields@).skip(from as int),
                key@,
            ) == Some(fields@[i as int].1@),
            None => lookup_field(fields_view(fields@).skip(from as int), key@) is None,
        },
    decreases fields@.len() - from,
{
    if from >= fields.len() {
        proof {
            assert(fields_view(fields@).skip(from as int) =~= Seq::<(Seq<char>, TopVal)>::empty());
        }
        None
    } else {
        proof {
            assert(fields_view(fields@).skip(from as int)[0] == (
                fields@[from as int].0@,
                fields@[from as int].1@,
            ));
        }
        if crate::text::chars_eq_str(&fields[from].0, key) {
            Some(from)
        } else {
            let r = x_lookup_from(fields, from + 1, key);
            proof {
                assert(fields_view(fields@).skip(from as int).drop_first() =~= fields_view(
                    fields@,
                ).skip(from as int + 1));
            }
            r
        }
    }
}

fn x_field_str(fields: &Vec<(Vec<char>, JsonTopVal)>, key: &str) -> (r: Option<String>)
    ensures
        match r {
            Some(t) => field_str(fields_view(fields@), key@) == Some(t@),
            None => field_str(fields_view(fields@), key@) is None,
        },
{
    proof {
        assert(fields_view(fields@).skip(0) =~= fields_view(fields@));
    }
    match x_lookup_from(fields, 0, key) {
        Some(i) => match &fields[i].1 {
            JsonTopVal::Scalar(JsonScalar::Str(t)) => Some(chars_to_string(t)),
            _ => None,
        },
        None => None,
    }
}

fn x_field_int(fields: &Vec<(Vec<char>, JsonTopVal)>, key: &str) -> (r: Option<i64>)
    ensures
        match r {
            Some(n) => field_int(fields_view(fields@), key@) == Some(n as int),
            None => field_int(fields_view(fields@), key@) is None,
        },
{
    proof {
        assert(fields_view(fields@).skip(0) =~= fields_view(fields@));
    }
    match x_lookup_from(fields, 0, key) {
        Some(i) => match &fields[i].1 {
            JsonTopVal::Scalar(JsonScalar::Int(n)) => Some(*n),
            _ => None,
        },
        None => None,
    }
}

fn x_field_client_id(fields: &Vec<(Vec<char>, JsonTopVal)>) -> (r: Option<Option<String>>)
    ensures
        match r {
            Some(c) => field_client_id(fields_view(fields@)) == Some(opt_str_view(c)),
            None => field_client_id(fields_view(fields@)) is None,
        },
{
    proof {
        assert(fields_view(fields@).skip(0) =~= fields_view(fields@));
    }
    match x_lookup_from(fields, 0, "client_id") {
        Some(i) => match &fields[i].1 {
            JsonTopVal::Scalar(JsonScalar::Null) => Some(None),
            JsonTopVal::Scalar(JsonScalar::Str(t)) => Some(Some(chars_to_string(t))),
            _ => None,
        },
        None => Some(None),
    }
}

fn x_lookup_pair_from(o: &Vec<(Vec<char>, JsonScalar)>, from: usize, key: &str) -> (r: Option<
    usize,
>)
    requires
        from <= o@.len(),
    ensures
        match r {
            Some(i) => from <= i < o@.len() && lookup_pair(pairs_view(o@).skip(from as int), key@)
                == Some(o@[i as int].1@),
            None => lookup_pair(pairs_view(o@).skip(from as int), key@) is None,
        },
    decreases o@.len() - from,
{
    if from >= o.len() {
        proof {
            assert(pairs_view(o@).skip(from as int) =~= Seq::<(Seq<char>, ScalarVal)>::empty());
        }
        None
    } else {
        proof {
            assert(pairs_view(o@).skip(from as int)[0] == (o@[from as int].0@, o@[from as int].1@));
        }
        if crate::text::chars_eq_str(&o[from].0, key) {
            Some(from)
        } else {
            let r = x_lookup_pair_from(o, from + 1, key);
            proof {
                assert(pairs_view(o@).skip(from as int).drop_first() =~= pairs_view(o@).skip(
                    from as int + 1,
                ));
            }
            r
        }
    }
}

fn x_pair_str(o: &Vec<(Vec<char>, JsonScalar)>, key: &str) -> (r: Option<String>)
    ensures
        match r {
            Some(t) => pair_str(pairs_view(o@), key@) == Some(t@),
            None => pair_str(pairs_view(o@), key@) is None,
        },
{
    proof {
        assert(pairs_view(o@).skip(0) =~= pairs_view(o@));
    }
    match x_lookup_pair_from(o, 0, key) {
        Some(i) => match &o[i].1 {
            JsonScalar::Str(t) => Some(chars_to_string(t)),
            _ => None,
        },
        None => None,
    }
}

fn x_pair_int(o: &Vec<(Vec<char>, JsonScalar)>, key: &str) -> (r: Option<i64>)
    ensures
        match r {
            Some(n) => pair_int(pairs_view(o@), key@) == Some(n as int),
            None => pair_int(pairs_view(o@), key@) is None,
        },
{
    proof {
        assert(pairs_view(o@).skip(0) =~= pairs_view(o@));
    }
    match x_lookup_pair_from(o, 0, key) {
        Some(i) => match &o[i].1 {
            JsonScalar::Int(n) => Some(*n),
            _ => None,
        },
        None => None,
    }
}

fn x_att_of_pairs(o: &Vec<(Vec<char>, JsonScalar)>) -> (r: Option<RealtimeAttachment>)
    ensures
        match r {
            Some(a) => att_of_pairs(pairs_view(o@)) == Some(a@),
            None => att_of_pairs(pairs_view(o@)) is None,
        },
{
    let path = x_pair_str(o, "file_path");
    let name = x_pair_str(o, "file_name");
    let size = x_pair_int(o, "file_size");
    let kind = x_pair_str(o, "kind");
    match (path, name, size, kind) {
        (Some(p), Some(n), Some(z), Some(k)) => Some(
            RealtimeAttachment { file_path: p, file_name: n, file_size: z, kind: k },
        ),
        _ => None,
    }
}

fn x_atts_of_objs(objs: &Vec<Vec<(Vec<char>, JsonScalar)>>, from: usize) -> (r: Option<
    Vec<RealtimeAttachment>,
>)
    requires
        from <= objs@.len(),
    ensures
        match r {
            Some(atts) => atts_of_objs(crate::json::objs_view(objs@).skip(from as int)) == Some(
                atts_view(atts@),
            ),
            None => atts_of_objs(crate::json::objs_view(objs@).skip(from as int)) is None,
        },
    decreases objs@.len() - from,
{
    if from >= objs.len() {
        proof {
            assert(crate::json::objs_view(objs@).skip(from as int) =~= Seq::<
                Seq<(Seq<char>, ScalarVal)>,
            >::empty());
            assert(atts_view(Seq::<RealtimeAttachment>::empty()) =~= Seq::<
                AttachmentView,
            >::empty());
        }
        Some(Vec::new())
    } else {
        proof {
            assert(crate::json::objs_view(objs@).skip(from as int)[0] == pairs_view(
                objs@[from as int]@,
            ));
            assert(crate::json::objs_view(objs@).skip(from as int).drop_first()
                =~= crate::json::objs_view(objs@).skip(from as int + 1));
        }
        match x_att_of_pairs(&objs[from]) {
            Some(a) => {
                match x_atts_of_objs(objs, from + 1) {
                    Some(rest) => {
                        let ghost ga = a@;
                        let mut out: Vec<RealtimeAttachment> = Vec::new();
                        out.push(a);
                        let mut tail = rest;
                        out.append(&mut tail);
                        proof {
                            assert(atts_view(out@) =~= seq![ga] + atts_view(rest@));
                        }
                        Some(out)
                    },
                    None => None,
                }
            },
            None => None,
        }
    }
}

fn x_field_attachments(fields: &Vec<(Vec<char>, JsonTopVal)>) -> (r: Option<
    Vec<RealtimeAttachment>,
>)
    ensures
        match r {
            Some(atts) => field_attachments(fields_view(fields@)) == Some(atts_view(atts@)),
            None => field_attachments(fields_view(fields@)) is None,
        },
{
    proof {
        assert(fields_view(fields@).skip(0) =~= fields_view(fields@));
        assert(atts_view(Seq::<RealtimeAttachment>::empty()) =~= Seq::<AttachmentView>::empty());
    }
    match x_lookup_from(fields, 0, "attachments") {
        Some(i) => match &fields[i].1 {
            JsonTopVal::Objs(objs) => {
                proof {
                    assert(crate::json::objs_view(objs@).skip(0) =~= crate::json::objs_view(
                        objs@,
                    ));
                }
                x_atts_of_objs(objs, 0)
            },
            _ => None,
        },
        None => Some(Vec::new()),
    }
}

fn x_payload_of_fields(fields: &Vec<(Vec<char>, JsonTopVal)>) -> (r: Option<RealtimePayload>)
    ensures
        match r {
            Some(p) => payload_of_fields(fields_view(fields@)) == Some(p@),
            None => payload_of_fields(fields_view(fields@)) is None,
        },
{
    let tag = match x_field_str(fields, "type") {
        Some(t) => t,
        None => {
            return None;
        },
    };
    proof {
        reveal_strlit("message");
        reveal_strlit("auth");
        reveal_strlit("ack");
        reveal_strlit("presence");
    }
    if crate::text::str_eq(tag.as_str(), "message") {
        let author = x_field_str(fields, "author");
        let body = x_field_str(fields, "body");
        let sent_at = x_field_str(fields, "sent_at");
        let cid = x_field_int(fields, "channel_id");
        let client = x_field_client_id(fields);
        let atts = x_field_attachments(fields);
        match (author, body, sent_at, cid, client, atts) {
            (Some(author), Some(body), Some(sent_at), Some(cid), Some(client), Some(atts)) => Some(
                RealtimePayload::Message {
                    author,
                    body,
                    sent_at,
                    channel_id: cid,
                    client_id: client,
                    attachments: atts,
                },
            ),
            _ => None,
        }
    } else if crate::text::str_eq(tag.as_str(), "auth") {
        match (x_field_str(fields, "token"), x_field_str(fields, "user")) {
            (Some(token), Some(user)) => Some(RealtimePayload::Auth { token, user }),
            _ => None,
        }
    } else if crate::text::str_eq(tag.as_str(), "ack") {
        match (x_field_str(fields, "kind"), x_field_str(fields, "detail")) {
            (Some(kind), Some(detail)) => Some(RealtimePayload::Ack { kind, detail }),
            _ => None,
        }
    } else if crate::text::str_eq(tag.as_str(), "presence") {
        match (x_field_str(fields, "user"), x_field_str(fields, "status")) {
            (Some(user), Some(status)) => Some(RealtimePayload::Presence { user, status }),
            _ => None,
        }
    } else {
        None
    }
}

/// Decodes one frame against the structured tagged grammar alone, with no
/// legacy fallback.
pub fn decode_payload(text: &str) -> (r: Option<RealtimePayload>)
    ensures
        match r {
            Some(p) => decode_payload_spec(text@) == Some(p@),
            None => decode_payload_spec(text@) is None,
        },
{
    let chars = str_to_chars(text);
    match x_parse_frame(&chars) {
        Some(fields) => x_payload_of_fields(&fields),
        None => None,
    }
}

} // verus!

verus! {

// ---------- the legacy tab-separated fallback ----------

/// An integer field as the legacy format reads it: an optional sign, then
/// one or more decimal digits (leading zeros allowed), within the signed
/// 64-bit range.
pub open spec fn legacy_digits(f: Seq<char>) -> Seq<char> {
    if f.len() > 0 && (f[0] == '-' || f[0] == '+') {
        f.drop_first()
    } else {
        f
    }
}

pub open spec fn legacy_int(f: Seq<char>) -> Option<int> {
    let ds = legacy_digits(f);
    let neg = f.len() > 0 && f[0] == '-';
    if ds.len() >= 1 && all_digits(ds) {
        if neg {
            if digits_val(ds) <= 9223372036854775808 {
                Some(-(digits_val(ds) as int))
            } else {
                None
            }
        } else {
            if digits_val(ds) <= 9223372036854775807 {
                Some(digits_val(ds) as int)
            } else {
                None
            }
        }
    } else {
        None
    }
}

/// A legacy frame: exactly four tab-separated fields — author, channel id,
/// sent-at, body — where the body absorbs every delimiter after the third.
pub open spec fn legacy_message_spec(s: Seq<char>) -> Option<IncomingView> {
    let t1 = find_char(s, 0, '\t');
    if t1 == s.len() {
        None
    } else {
        let t2 = find_char(s, t1 + 1, '\t');
        if t2 == s.len() {
            None
        } else {
            let t3 = find_char(s, t2 + 1, '\t');
            if t3 == s.len() {
                None
            } else {
                match legacy_int(s.subrange(t1 + 1, t2)) {
                    Some(cid) => Some(
                        IncomingView {
                            message: MessageView {
                                id: 0,
                                author: s.subrange(0, t1),
                                body: s.subrange(t3 + 1, s.len() as int),
                                sent_at: s.subrange(t2 + 1, t3),
                                channel_id: cid,
                            },
                            attachments: Seq::empty(),
                        },
                    ),
                    None => None,
                }
            }
        }
    }
}

fn x_legacy_int(f: &Vec<char>) -> (r: Option<i64>)
    ensures
        match r {
            Some(n) => legacy_int(f@) == Some(n as int),
            None => legacy_int(f@) is None,
        },
{
    let flen = f.len();
    let signed = flen > 0 && (f[0] == '-' || f[0] == '+');
    let neg = flen > 0 && f[0] == '-';
    let start: usize = if signed {
        1
    } else {
        0
    };
    proof {
        if signed {
            assert(legacy_digits(f@) =~= f@.subrange(1, flen as int));
        } else {
            assert(legacy_digits(f@) =~= f@.subrange(0, flen as int));
        }
    }
    if flen - start < 1 {
        return None;
    }
    // every remaining character must be a digit
    let mut i = start;
    while i < flen
        invariant
            start <= i <= flen,
            start <= 1,
            flen == f@.len(),
            signed ==> start == 1 && f@.len() > 0 && (f@[0] == '-' || f@[0] == '+'),
            !signed ==> start == 0 && legacy_digits(f@) == f@,
            forall|j: int| start <= j < i ==> is_digit(f@[j]),
        decreases flen - i,
    {
        if !char_is_digit(f[i]) {
            proof {
                if signed {
                    assert(legacy_digits(f@) =~= f@.subrange(1, flen as int));
                }
                assert(legacy_digits(f@)[i - start] == f@[i as int]);
            }
            return None;
        }
        i = i + 1;
    }
    proof {
        assert(all_digits(legacy_digits(f@)));
    }
    // skip leading zeros; they do not change the value
    let mut z = start;
    while z < flen && f[z] == '0'
        invariant
            start <= z <= flen,
            flen == f@.len(),
            forall|j: int| start <= j < flen ==> is_digit(f@[j]),
            digits_val(f@.subrange(start as int, flen as int)) == digits_val(
                f@.subrange(z as int, flen as int),
            ),
        decreases flen - z,
    {
        proof {
            assert(f@.subrange(z as int, flen as int) =~= seq!['0'] + f@.subrange(
                z as int + 1,
                flen as int,
            ));
            lemma_digits_val_leading_zero(f@.subrange(z as int + 1, flen as int));
        }
        z = z + 1;
    }
    let dcount = flen - z;
    proof {
        lemma_pow10_19();
    }
    if dcount > 19 {
        proof {
            let ds = f@.subrange(z as int, flen as int);
            assert(all_digits(ds));
            assert(ds[0] != '0');
            crate::text::lemma_digits_val_lower(ds);
            lemma_pow10_mono(19, (dcount - 1) as nat);
        }
        return None;
    }
    let mut acc: u64 = 0;
    let mut k = z;
    proof {
        assert(f@.subrange(z as int, z as int) =~= Seq::<char>::empty());
    }
    while k < flen
        invariant
            z <= k <= flen,
            flen == f@.len(),
            flen - z <= 19,
            forall|j: int| z <= j < flen ==> is_digit(f@[j]),
            acc == digits_val(f@.subrange(z as int, k as int)),
            pow10(18) == 1000000000000000000,
            pow10(19) == 10000000000000000000,
        decreases flen - k,
    {
        proof {
            assert(all_digits(f@.subrange(z as int, k as int)));
            lemma_digits_val_bound(f@.subrange(z as int, k as int));
            lemma_pow10_mono((k - z) as nat, 18);
        }
        let d = char_digit_of(f[k]);
        acc = acc * 10 + (d as u64);
        k = k + 1;
        proof {
            lemma_digits_val_snoc(f@.subrange(z as int, k - 1 as int), f@[k - 1 as int]);
            assert(f@.subrange(z as int, k as int) =~= f@.subrange(z as int, k - 1 as int).push(
                f@[k - 1 as int],
            ));
        }
    }
    proof {
        assert(digits_val(legacy_digits(f@)) == acc);
    }
    if neg {
        if acc <= 9223372036854775808u64 {
            let n: i64 = if acc == 9223372036854775808u64 {
                i64::MIN
            } else {
                -(acc as i64)
            };
            Some(n)
        } else {
            None
        }
    } else {
        if acc <= 9223372036854775807u64 {
            Some(acc as i64)
        } else {
            None
        }
    }
}

/// Reads a legacy tab-separated frame into an incoming chat message with no
/// attachments; `None` when the frame has fewer than four fields or its
/// channel id is not an integer.
pub fn parse_legacy_message(text: &str) -> (r: Option<IncomingMessage>)
    ensures
        match r {
            Some(m) => legacy_message_spec(text@) == Some(m@),
            None => legacy_message_spec(text@) is None,
        },
{
    let chars = str_to_chars(text);
    let t1 = x_find_char(&chars, 0, '\t');
    if t1 == chars.len() {
        return None;
    }
    let t2 = x_find_char(&chars, t1 + 1, '\t');
    if t2 == chars.len() {
        return None;
    }
    let t3 = x_find_char(&chars, t2 + 1, '\t');
    if t3 == chars.len() {
        return None;
    }
    let chan_field = vec_slice(&chars, t1 + 1, t2);
    match x_legacy_int(&chan_field) {
        Some(cid) => {
            let author = chars_to_string(&vec_slice(&chars, 0, t1));
            let sent_at = chars_to_string(&vec_slice(&chars, t2 + 1, t3));
            let body = chars_to_string(&vec_slice(&chars, t3 + 1, chars.len()));
            proof {
                assert(atts_view(Seq::<RealtimeAttachment>::empty()) =~= Seq::<
                    AttachmentView,
                >::empty());
            }
            Some(
                IncomingMessage {
                    message: Message { id: 0, author, body, sent_at, channel_id: cid },
                    attachments: Vec::new(),
                },
            )
        },
        None => None,
    }
}

// ---------- the full inbound decode ----------

/// How a decoded payload is classified for the session's owner: chat
/// messages and presence updates carry data; acks and auth echoes are
/// informational signals.
pub open spec fn inbound_of_payload(p: PayloadView) -> InboundView {
    match p {
        PayloadView::Message { author, body, sent_at, channel_id, client_id, attachments } =>
            InboundView::Message(
            IncomingView {
                message: MessageView { id: 0, author, body, sent_at, channel_id },
                attachments,
            },
        ),
        PayloadView::Auth { token, user } => InboundView::Signal("Auth received for "@ + user),
        PayloadView::Ack { kind, detail } => InboundView::Signal(
            "Ack: "@ + kind + " ("@ + detail + ")"@,
        ),
        PayloadView::Presence { user, status } => InboundView::Presence { user, status },
    }
}

/// The reason a structured decode failed, as the decode error carries it:
/// either the text is not an object of the wire grammar at all, or it parsed
/// as one whose tag or fields do not fit any payload.
pub open spec fn structured_failure_msg(s: Seq<char>) -> Seq<char> {
    if parse_frame(s) is None {
        "structured decode failed: the frame is not an object of the wire grammar"@
    } else {
        "structured decode failed: unknown type tag, or a required field is missing or mistyped"@
    }
}

/// The whole decode pipeline: the structured grammar first, then the legacy
/// fallback, and a decode error carrying the structured-decode failure
/// reason when both fail.
pub open spec fn decode_inbound_spec(s: Seq<char>) -> Result<InboundView, Seq<char>> {
    match decode_payload_spec(s) {
        Some(p) => Ok(inbound_of_payload(p)),
        None => match legacy_message_spec(s) {
            Some(m) => Ok(InboundView::Message(m)),
            None => Err(structured_failure_msg(s)),
        },
    }
}

/// Decodes one inbound text frame: a structured frame yields a chat message,
/// a presence update or an informational signal; a frame that is not
/// structured falls back to the legacy tab-separated format; anything else
/// is a (non-fatal) decode error carrying why the structured decode failed.
pub fn decode_realtime_inbound(text: &str) -> (r: Result<RealtimeInbound, String>)
    ensures
        match r {
            Ok(v) => decode_inbound_spec(text@) == Ok::<InboundView, Seq<char>>(v@),
            Err(e) => decode_inbound_spec(text@) == Err::<InboundView, Seq<char>>(e@),
        },
{
    let chars = str_to_chars(text);
    let payload = match x_parse_frame(&chars) {
        Some(fields) => match x_payload_of_fields(&fields) {
            Some(p) => p,
            None => {
                return match parse_legacy_message(text) {
                    Some(m) => Ok(RealtimeInbound::Message(m)),
                    None => Err(
                        String::from_str(
                            "structured decode failed: unknown type tag, or a required field is missing or mistyped",
                        ),
                    ),
                };
            },
        },
        None => {
            return match parse_legacy_message(text) {
                Some(m) => Ok(RealtimeInbound::Message(m)),
                None => Err(
                    String::from_str(
                        "structured decode failed: the frame is not an object of the wire grammar",
                    ),
                ),
            };
        },
    };
    match payload {
        RealtimePayload::Message { author, body, sent_at, channel_id, client_id: _, attachments } => {
            Ok(
                RealtimeInbound::Message(
                    IncomingMessage {
                        message: Message { id: 0, author, body, sent_at, channel_id },
                        attachments,
                    },
                ),
            )
        },
        RealtimePayload::Auth { token: _, user } => {
            let mut m = String::from_str("Auth received for ");
            m.append(user.as_str());
            Ok(RealtimeInbound::Signal(m))
        },
        RealtimePayload::Ack { kind, detail } => {
            let mut m = String::from_str("Ack: ");
            m.append(kind.as_str());
            m.append(" (");
            m.append(detail.as_str());
            m.append(")");
            Ok(RealtimeInbound::Signal(m))
        },
        RealtimePayload::Presence { user, status } => {
            Ok(RealtimeInbound::Presence { user, status })
        },
    }
}

} // verus!
