//! The codec's round-trip law: decoding an encoded chat message yields a
//! `Message` result with the same author, body, timestamp, channel and
//! attachment list. The proof walks the parser along the canonical frame
//! text, one grammar production at a time.

use vstd::prelude::*;
use crate::text::{is_json_ws, is_digit, is_hex_digit, hex_val, dec_digits, int_chars,
    escape_char, escape_seq, digits_val, hex_char, lemma_hex_char_val, lemma_dec_digits_shape,
    lemma_dec_digits_len, lemma_pow10_19};
use crate::json::{ScalarVal, TopVal, skip_ws, digit_run_end, unescape_at, parse_string_body,
    parse_int, parse_int_digits, starts_with_at, parse_scalar, parse_pair, parse_flat_tail,
    parse_flat_obj, parse_objs_tail, parse_arr, parse_top_val, parse_top_pair, parse_top_tail,
    parse_top_obj, parse_frame};

verus! {

/// Text that escaping leaves unchanged: no quote, no backslash, no control
/// character.
pub open spec fn plain_chars(t: Seq<char>) -> bool {
    forall|i: int| 0 <= i < t.len() ==> t[i] != '"' && t[i] != '\\' && t[i] as u32 >= 32
}

proof fn lemma_escape_plain(t: Seq<char>)
    requires
        plain_chars(t),
    ensures
        escape_seq(t) == t,
    decreases t.len(),
{
    if t.len() == 0 {
        assert(escape_seq(t) =~= t);
    } else {
        assert(escape_char(t[0]) == seq![t[0]]);
        assert(plain_chars(t.drop_first())) by {
            assert(forall|i: int|
                0 <= i < t.drop_first().len() ==> t.drop_first()[i] == t[i + 1]);
        }
        lemma_escape_plain(t.drop_first());
        assert(escape_seq(t) =~= t);
    }
}

proof fn lemma_starts_with_concat(s: Seq<char>, pos: int, a: Seq<char>, b: Seq<char>)
    requires
        starts_with_at(s, pos, a + b),
    ensures
        starts_with_at(s, pos, a),
        starts_with_at(s, pos + a.len(), b),
        forall|i: int| 0 <= i < a.len() ==> s[pos + i] == a[i],
        forall|i: int| 0 <= i < b.len() ==> s[pos + a.len() + i] == b[i],
{
    let w = a + b;
    assert(forall|i: int|
        0 <= i < w.len() ==> s.subrange(pos, pos + w.len())[i] == #[trigger] s[pos + i]);
    assert(forall|i: int| 0 <= i < w.len() ==> #[trigger] s[pos + i] == w[i]);
    assert(s.subrange(pos, pos + a.len()) =~= a);
    assert forall|i: int| 0 <= i < b.len() implies s.subrange(
        pos + a.len(),
        pos + a.len() + b.len(),
    )[i] == b[i] by {
        assert(s[pos + (a.len() + i)] == w[a.len() + i]);
    }
    assert(s.subrange(pos + a.len(), pos + a.len() + b.len()) =~= b);
    assert forall|i: int| 0 <= i < b.len() implies s[pos + a.len() + i] == b[i] by {
        assert(s[pos + (a.len() + i)] == w[a.len() + i]);
    }
}

proof fn lemma_starts_with_chars(s: Seq<char>, pos: int, w: Seq<char>)
    requires
        starts_with_at(s, pos, w),
    ensures
        forall|i: int| 0 <= i < w.len() ==> s[pos + i] == w[i],
{
    assert(forall|i: int|
        0 <= i < w.len() ==> s.subrange(pos, pos + w.len())[i] == #[trigger] s[pos + i]);
}

// ---------- strings ----------

proof fn lemma_parse_escaped_string(s: Seq<char>, pos: int, t: Seq<char>)
    requires
        0 <= pos,
        starts_with_at(s, pos, escape_seq(t) + seq!['"']),
    ensures
        parse_string_body(s, pos) == Some((t, pos + escape_seq(t).len() + 1)),
    decreases t.len(),
{
    let w = escape_seq(t) + seq!['"'];
    lemma_starts_with_chars(s, pos, w);
    if t.len() == 0 {
        assert(escape_seq(t) =~= Seq::<char>::empty());
        assert(w =~= seq!['"']);
        assert(s[pos + 0] == w[0]);
        assert(s[pos] == '"');
        assert(t =~= Seq::<char>::empty());
    } else {
        let c = t[0];
        let rest = t.drop_first();
        let ec = escape_char(c);
        assert(escape_seq(t) == ec + escape_seq(rest));
        let pos2 = pos + ec.len();
        assert(starts_with_at(s, pos2, escape_seq(rest) + seq!['"'])) by {
            assert(escape_seq(t) + seq!['"'] =~= ec + (escape_seq(rest) + seq!['"']));
            lemma_starts_with_concat(s, pos, ec, escape_seq(rest) + seq!['"']);
        }
        lemma_parse_escaped_string(s, pos2, rest);
        assert forall|i: int| 0 <= i < ec.len() implies s[pos + i] == ec[i] by {
            assert(s[pos + i] == w[i]);
            assert(w[i] == (ec + escape_seq(rest))[i]);
        }
        assert(s[pos + 0] == ec[0]);
        assert(s[pos] == ec[0]);
        assert(seq![c] + rest =~= t);
        let expect_end = pos + escape_seq(t).len() + 1;
        assert(pos2 + escape_seq(rest).len() + 1 == expect_end);
        if c == '"' {
            assert(s[pos] == '\\' && s[pos + 1] == '"');
            assert(unescape_at(s, pos + 1) == Some(('"', pos + 2)));
            assert(parse_string_body(s, pos) == Some((t, expect_end)));
        } else if c == '\\' {
            assert(s[pos] == '\\' && s[pos + 1] == '\\');
            assert(unescape_at(s, pos + 1) == Some(('\\', pos + 2)));
            assert(parse_string_body(s, pos) == Some((t, expect_end)));
        } else if c == '\u{8}' {
            assert(s[pos] == '\\' && s[pos + 1] == 'b');
            assert(unescape_at(s, pos + 1) == Some(('\u{8}', pos + 2)));
            assert(parse_string_body(s, pos) == Some((t, expect_end)));
        } else if c == '\u{c}' {
            assert(s[pos] == '\\' && s[pos + 1] == 'f');
            assert(unescape_at(s, pos + 1) == Some(('\u{c}', pos + 2)));
            assert(parse_string_body(s, pos) == Some((t, expect_end)));
        } else if c == '\n' {
            assert(s[pos] == '\\' && s[pos + 1] == 'n');
            assert(unescape_at(s, pos + 1) == Some(('\n', pos + 2)));
            assert(parse_string_body(s, pos) == Some((t, expect_end)));
        } else if c == '\r' {
            assert(s[pos] == '\\' && s[pos + 1] == 'r');
            assert(unescape_at(s, pos + 1) == Some(('\r', pos + 2)));
            assert(parse_string_body(s, pos) == Some((t, expect_end)));
        } else if c == '\t' {
            assert(s[pos] == '\\' && s[pos + 1] == 't');
            assert(unescape_at(s, pos + 1) == Some(('\t', pos + 2)));
            assert(parse_string_body(s, pos) == Some((t, expect_end)));
        } else if (c as u32) < 32 {
            let cu = c as u32;
            let hi = (cu / 16) as nat;
            let lo = (cu % 16) as nat;
            assert(ec == seq!['\\', 'u', '0', '0', hex_char(hi), hex_char(lo)]);
            assert(s[pos] == '\\' && s[pos + 1] == 'u' && s[pos + 2] == '0' && s[pos + 3] == '0');
            assert(s[pos + 4] == hex_char(hi) && s[pos + 5] == hex_char(lo));
            lemma_hex_char_val(hi);
            lemma_hex_char_val(lo);
            assert(is_hex_digit('0') && hex_val('0') == 0) by {
                assert('0' as u32 == 48);
            }
            let v = hex_val(s[pos + 2]) * 4096 + hex_val(s[pos + 3]) * 256 + hex_val(s[pos + 4])
                * 16 + hex_val(s[pos + 5]);
            assert(v == hi * 16 + lo);
            assert(hi * 16 + lo == cu) by {
                vstd::arithmetic::div_mod::lemma_fundamental_div_mod(cu as int, 16);
            }
            assert(v < 0xD800);
            assert(((v as u32) as char) == c) by {
                vstd::utf8::char_u32_cast(c, cu);
            }
            assert(pos + 1 + 5 <= s.len());
            assert(unescape_at(s, pos + 1) == Some((c, pos + 6)));
            assert(parse_string_body(s, pos) == Some((t, expect_end)));
        } else {
            assert(ec == seq![c]);
            assert(s[pos] == c);
            assert(parse_string_body(s, pos) == Some((t, expect_end)));
        }
    }
}

// ---------- integers ----------

proof fn lemma_digit_run_end_eq(s: Seq<char>, pos: int, end: int)
    requires
        0 <= pos <= end <= s.len(),
        forall|i: int| pos <= i < end ==> is_digit(s[i]),
        end == s.len() || !is_digit(s[end]),
    ensures
        digit_run_end(s, pos) == end,
    decreases end - pos,
{
    if pos < end {
        lemma_digit_run_end_eq(s, pos + 1, end);
    }
}

proof fn lemma_parse_int_at(s: Seq<char>, pos: int, n: int)
    requires
        0 <= pos,
        -9223372036854775808 <= n <= 9223372036854775807,
        starts_with_at(s, pos, int_chars(n)),
        pos + int_chars(n).len() == s.len() || !is_digit(s[pos + int_chars(n).len()]),
    ensures
        parse_int(s, pos) == Some((n, pos + int_chars(n).len())),
{
    let w = int_chars(n);
    lemma_starts_with_chars(s, pos, w);
    lemma_pow10_19();
    let mag = if n < 0 {
        (-n) as nat
    } else {
        n as nat
    };
    let ds = dec_digits(mag);
    lemma_dec_digits_shape(mag);
    lemma_dec_digits_len(mag, 19);
    let dpos = if n < 0 {
        pos + 1
    } else {
        pos
    };
    let dend = dpos + ds.len();
    assert forall|i: int| 0 <= i < ds.len() implies #[trigger] s[dpos + i] == ds[i] by {
        if n < 0 {
            assert(s[pos + (i + 1)] == w[i + 1]);
            assert(w[i + 1] == (seq!['-'] + ds)[i + 1]);
        } else {
            assert(s[pos + i] == w[i]);
        }
    }
    assert forall|i: int| dpos <= i < dend implies is_digit(s[i]) by {
        assert(s[dpos + (i - dpos)] == ds[i - dpos]);
    }
    assert(dend == pos + w.len());
    lemma_digit_run_end_eq(s, dpos, dend);
    assert forall|i: int| 0 <= i < ds.len() implies s.subrange(dpos, dend)[i] == ds[i] by {
        assert(s[dpos + i] == ds[i]);
    }
    assert(s.subrange(dpos, dend) =~= ds);
    assert(s[pos + 0] == w[0]);
    if n < 0 {
        assert(w[0] == '-');
        assert(s[pos] == '-');
        assert(pos < s.len());
        assert(parse_int(s, pos) == parse_int_digits(s, pos + 1, true));
        assert(ds.len() > 1 ==> s[dpos] != '0') by {
            if ds.len() > 1 {
                assert(mag >= 10) by {
                    if mag < 10 {
                        assert(ds.len() == 1);
                    }
                }
            }
        }
        assert(digits_val(s.subrange(dpos, dend)) == mag);
        assert(mag <= 9223372036854775808);
        assert(parse_int_digits(s, dpos, true) == Some((-(mag as int), dend)));
        assert(-(mag as int) == n);
    } else {
        assert(w[0] == ds[0]);
        assert(is_digit(s[pos]));
        assert(s[pos] != '-') by {
            if s[pos] == '-' {
                assert(s[pos] as u32 == 45);
            }
        }
        assert(parse_int(s, pos) == parse_int_digits(s, pos, false));
        assert(ds.len() > 1 ==> s[dpos] != '0') by {
            if ds.len() > 1 {
                assert(mag >= 10) by {
                    if mag < 10 {
                        assert(ds.len() == 1);
                    }
                }
            }
        }
        assert(digits_val(s.subrange(dpos, dend)) == mag);
        assert(mag <= 9223372036854775807);
        assert(parse_int_digits(s, dpos, false) == Some((mag as int, dend)));
    }
}

// ---------- scalars ----------

proof fn lemma_parse_scalar_str(s: Seq<char>, pos: int, t: Seq<char>)
    requires
        0 <= pos,
        starts_with_at(s, pos, crate::codec::enc_str(t)),
    ensures
        parse_scalar(s, pos) == Some(
            (ScalarVal::Str(t), pos + crate::codec::enc_str(t).len()),
        ),
{
    let w = crate::codec::enc_str(t);
    lemma_starts_with_chars(s, pos, w);
    assert(s[pos + 0] == w[0]);
    assert(w[0] == '"');
    assert(s[pos] == '"');
    assert(pos < s.len());
    assert(starts_with_at(s, pos + 1, escape_seq(t) + seq!['"'])) by {
        assert(w =~= seq!['"'] + (escape_seq(t) + seq!['"']));
        lemma_starts_with_concat(s, pos, seq!['"'], escape_seq(t) + seq!['"']);
    }
    lemma_parse_escaped_string(s, pos + 1, t);
    assert(parse_string_body(s, pos + 1) == Some((t, pos + w.len())));
}

proof fn lemma_parse_scalar_int(s: Seq<char>, pos: int, n: int)
    requires
        0 <= pos,
        -9223372036854775808 <= n <= 9223372036854775807,
        starts_with_at(s, pos, int_chars(n)),
        pos + int_chars(n).len() == s.len() || !is_digit(s[pos + int_chars(n).len()]),
    ensures
        parse_scalar(s, pos) == Some((ScalarVal::Int(n), pos + int_chars(n).len())),
{
    let w = int_chars(n);
    lemma_starts_with_chars(s, pos, w);
    assert(s[pos + 0] == w[0]);
    lemma_parse_int_at(s, pos, n);
    let mag = if n < 0 {
        (-n) as nat
    } else {
        n as nat
    };
    lemma_dec_digits_shape(mag);
    if n < 0 {
        assert(s[pos] == '-');
        assert(s[pos] != '"') by {
            assert('-' as u32 == 45);
        }
    } else {
        assert(w[0] == dec_digits(mag)[0]);
        assert(is_digit(s[pos]));
        assert(s[pos] != '"') by {
            if s[pos] == '"' {
                assert(s[pos] as u32 == 34);
            }
        }
    }
}

proof fn lemma_parse_scalar_null(s: Seq<char>, pos: int)
    requires
        0 <= pos,
        starts_with_at(s, pos, "null"@),
    ensures
        parse_scalar(s, pos) == Some((ScalarVal::Null, pos + 4)),
{
    reveal_strlit("null");
    lemma_starts_with_chars(s, pos, "null"@);
    assert(s[pos + 0] == "null"@[0]);
    assert(s[pos] == 'n');
    assert(pos < s.len());
    assert(s[pos] != '"' && s[pos] != '-' && !is_digit(s[pos])) by {
        assert('n' as u32 == 110);
    }
}


// ---------- pairs ----------

proof fn lemma_skip_ws_no(s: Seq<char>, pos: int)
    requires
        0 <= pos < s.len(),
        !is_json_ws(s[pos]),
    ensures
        skip_ws(s, pos) == pos,
{
}

// one `"key": scalar` pair of a canonical frame, with no whitespace around it
proof fn lemma_parse_pair_at(s: Seq<char>, pos: int, key: Seq<char>, v: ScalarVal, end: int)
    requires
        0 <= pos,
        plain_chars(key),
        starts_with_at(s, pos, seq!['"'] + key + seq!['"', ':']),
        pos + key.len() + 3 < s.len(),
        !is_json_ws(s[pos + key.len() + 3]),
        parse_scalar(s, pos + key.len() + 3) == Some((v, end)),
    ensures
        parse_pair(s, pos) == Some(((key, v), end)),
{
    let w = seq!['"'] + key + seq!['"', ':'];
    lemma_starts_with_chars(s, pos, w);
    assert(s[pos + 0] == w[0]);
    assert(s[pos] == '"');
    assert(pos < s.len());
    assert(!is_json_ws('"')) by {
        assert('"' as u32 == 34);
    }
    lemma_skip_ws_no(s, pos);
    lemma_escape_plain(key);
    let kw = escape_seq(key) + seq!['"'];
    assert forall|i: int| 0 <= i < kw.len() implies s.subrange(pos + 1, pos + 1 + kw.len())[i]
        == kw[i] by {
        assert(s[pos + (1 + i)] == w[1 + i]);
    }
    assert(s.subrange(pos + 1, pos + 1 + kw.len()) =~= kw);
    assert(starts_with_at(s, pos + 1, kw));
    lemma_parse_escaped_string(s, pos + 1, key);
    let p1 = pos + key.len() + 2;
    assert(parse_string_body(s, pos + 1) == Some((key, p1)));
    assert(s[pos + (key.len() + 2)] == w[key.len() as int + 2]);
    assert(s[p1] == ':');
    assert(!is_json_ws(':')) by {
        assert(':' as u32 == 58);
    }
    lemma_skip_ws_no(s, p1);
    lemma_skip_ws_no(s, p1 + 1);
}

// one `"key": value` pair of the frame's top-level object
proof fn lemma_parse_top_pair_at(s: Seq<char>, pos: int, key: Seq<char>, v: TopVal, end: int)
    requires
        0 <= pos,
        plain_chars(key),
        starts_with_at(s, pos, seq!['"'] + key + seq!['"', ':']),
        pos + key.len() + 3 < s.len(),
        !is_json_ws(s[pos + key.len() + 3]),
        parse_top_val(s, pos + key.len() + 3) == Some((v, end)),
    ensures
        parse_top_pair(s, pos) == Some(((key, v), end)),
{
    let w = seq!['"'] + key + seq!['"', ':'];
    lemma_starts_with_chars(s, pos, w);
    assert(s[pos + 0] == w[0]);
    assert(s[pos] == '"');
    assert(pos < s.len());
    assert(!is_json_ws('"')) by {
        assert('"' as u32 == 34);
    }
    lemma_skip_ws_no(s, pos);
    lemma_escape_plain(key);
    let kw = escape_seq(key) + seq!['"'];
    assert forall|i: int| 0 <= i < kw.len() implies s.subrange(pos + 1, pos + 1 + kw.len())[i]
        == kw[i] by {
        assert(s[pos + (1 + i)] == w[1 + i]);
    }
    assert(s.subrange(pos + 1, pos + 1 + kw.len()) =~= kw);
    assert(starts_with_at(s, pos + 1, kw));
    lemma_parse_escaped_string(s, pos + 1, key);
    let p1 = pos + key.len() + 2;
    assert(parse_string_body(s, pos + 1) == Some((key, p1)));
    assert(s[pos + (key.len() + 2)] == w[key.len() as int + 2]);
    assert(s[p1] == ':');
    assert(!is_json_ws(':')) by {
        assert(':' as u32 == 58);
    }
    lemma_skip_ws_no(s, p1);
    lemma_skip_ws_no(s, p1 + 1);
}

// ---------- attachment objects ----------

/// What parsing one encoded attachment object yields.
pub open spec fn att_pairs(a: crate::protocol::AttachmentView) -> Seq<(Seq<char>, ScalarVal)> {
    seq![
        ("file_path"@, ScalarVal::Str(a.file_path)),
        ("file_name"@, ScalarVal::Str(a.file_name)),
        ("file_size"@, ScalarVal::Int(a.file_size)),
        ("kind"@, ScalarVal::Str(a.kind)),
    ]
}

pub open spec fn att_objs(atts: Seq<crate::protocol::AttachmentView>) -> Seq<
    Seq<(Seq<char>, ScalarVal)>,
> {
    atts.map_values(|a: crate::protocol::AttachmentView| att_pairs(a))
}

pub open spec fn atts_size_ok(atts: Seq<crate::protocol::AttachmentView>) -> bool {
    forall|i: int|
        0 <= i < atts.len() ==> -9223372036854775808 <= (#[trigger] atts[i]).file_size
            <= 9223372036854775807
}

#[verifier::rlimit(100)]
#[verifier::spinoff_prover]
proof fn lemma_att_obj_pairs(s: Seq<char>, pos: int, a: crate::protocol::AttachmentView)
    requires
        0 <= pos,
        -9223372036854775808 <= a.file_size <= 9223372036854775807,
        starts_with_at(s, pos, crate::codec::enc_att(a)),
    ensures
        ({
            let q1 = pos + "{\"file_path\":"@.len();
            let q2 = q1 + crate::codec::enc_str(a.file_path).len();
            let q3 = q2 + ",\"file_name\":"@.len();
            let q4 = q3 + crate::codec::enc_str(a.file_name).len();
            let q5 = q4 + ",\"file_size\":"@.len();
            let q6 = q5 + int_chars(a.file_size).len();
            let q7 = q6 + ",\"kind\":"@.len();
            let q8 = q7 + crate::codec::enc_str(a.kind).len();
            {
                &&& s.len() >= q8 + 1
                &&& s[pos] == '{'
                &&& s[pos + 1] == '"'
                &&& s[q2] == ','
                &&& s[q4] == ','
                &&& s[q6] == ','
                &&& s[q8] == '}'
                &&& q8 + 1 == pos + crate::codec::enc_att(a).len()
                &&& parse_pair(s, pos + 1) == Some::<((Seq<char>, ScalarVal), int)>(
                    (("file_path"@, ScalarVal::Str(a.file_path)), q2),
                )
                &&& parse_pair(s, q2 + 1) == Some::<((Seq<char>, ScalarVal), int)>(
                    (("file_name"@, ScalarVal::Str(a.file_name)), q4),
                )
                &&& parse_pair(s, q4 + 1) == Some::<((Seq<char>, ScalarVal), int)>(
                    (("file_size"@, ScalarVal::Int(a.file_size)), q6),
                )
                &&& parse_pair(s, q6 + 1) == Some::<((Seq<char>, ScalarVal), int)>(
                    (("kind"@, ScalarVal::Str(a.kind)), q8),
                )
            }
        }),
{
    reveal_strlit("{\"file_path\":");
    reveal_strlit(",\"file_name\":");
    reveal_strlit(",\"file_size\":");
    reveal_strlit(",\"kind\":");
    reveal_strlit("}");
    reveal_strlit("file_path");
    reveal_strlit("file_name");
    reveal_strlit("file_size");
    reveal_strlit("kind");
    let l1 = "{\"file_path\":"@;
    let l2 = ",\"file_name\":"@;
    let l3 = ",\"file_size\":"@;
    let l4 = ",\"kind\":"@;
    let e1 = crate::codec::enc_str(a.file_path);
    let e2 = crate::codec::enc_str(a.file_name);
    let ic = int_chars(a.file_size);
    let e3 = crate::codec::enc_str(a.kind);
    let w = crate::codec::enc_att(a);
    assert(w == l1 + e1 + l2 + e2 + l3 + ic + l4 + e3 + "}"@);
    // positions of each segment
    let q1 = pos + l1.len();
    let q2 = q1 + e1.len();
    let q3 = q2 + l2.len();
    let q4 = q3 + e2.len();
    let q5 = q4 + l3.len();
    let q6 = q5 + ic.len();
    let q7 = q6 + l4.len();
    let q8 = q7 + e3.len();
    assert(starts_with_at(s, pos, l1 + e1 + l2 + e2 + l3 + ic + l4 + e3) && starts_with_at(
        s,
        q8,
        "}"@,
    )) by {
        lemma_starts_with_concat(s, pos, l1 + e1 + l2 + e2 + l3 + ic + l4 + e3, "}"@);
    }
    assert(starts_with_at(s, pos, l1 + e1 + l2 + e2 + l3 + ic + l4) && starts_with_at(s, q7, e3))
        by {
        lemma_starts_with_concat(s, pos, l1 + e1 + l2 + e2 + l3 + ic + l4, e3);
    }
    assert(starts_with_at(s, pos, l1 + e1 + l2 + e2 + l3 + ic) && starts_with_at(s, q6, l4)) by {
        lemma_starts_with_concat(s, pos, l1 + e1 + l2 + e2 + l3 + ic, l4);
    }
    assert(starts_with_at(s, pos, l1 + e1 + l2 + e2 + l3) && starts_with_at(s, q5, ic)) by {
        lemma_starts_with_concat(s, pos, l1 + e1 + l2 + e2 + l3, ic);
    }
    assert(starts_with_at(s, pos, l1 + e1 + l2 + e2) && starts_with_at(s, q4, l3)) by {
        lemma_starts_with_concat(s, pos, l1 + e1 + l2 + e2, l3);
    }
    assert(starts_with_at(s, pos, l1 + e1 + l2) && starts_with_at(s, q3, e2)) by {
        lemma_starts_with_concat(s, pos, l1 + e1 + l2, e2);
    }
    assert(starts_with_at(s, pos, l1 + e1) && starts_with_at(s, q2, l2)) by {
        lemma_starts_with_concat(s, pos, l1 + e1, l2);
    }
    assert(starts_with_at(s, pos, l1) && starts_with_at(s, q1, e1)) by {
        lemma_starts_with_concat(s, pos, l1, e1);
    }
    lemma_starts_with_chars(s, pos, l1);
    lemma_starts_with_chars(s, q2, l2);
    lemma_starts_with_chars(s, q4, l3);
    lemma_starts_with_chars(s, q6, l4);
    lemma_starts_with_chars(s, q8, "}"@);
    // pair 1: "file_path": <string> -- its `"key":` text is l1 without the brace
    let k1 = seq!['"'] + "file_path"@ + seq!['"', ':'];
    assert forall|i: int| 0 <= i < k1.len() implies s.subrange(pos + 1, pos + 1 + k1.len())[i]
        == k1[i] by {
        assert(s[pos + (1 + i)] == l1[1 + i]);
    }
    assert(s.subrange(pos + 1, pos + 1 + k1.len()) =~= k1);
    assert(starts_with_at(s, pos + 1, k1));
    assert(plain_chars("file_path"@));
    lemma_parse_scalar_str(s, q1, a.file_path);
    assert(s[q1 + 0] == e1[0]);
    assert(!is_json_ws(s[q1])) by {
        assert(e1[0] == '"');
        assert('"' as u32 == 34);
    }
    lemma_parse_pair_at(s, pos + 1, "file_path"@, ScalarVal::Str(a.file_path), q2);
    // pair 2: "file_name": <string>
    let k2 = seq!['"'] + "file_name"@ + seq!['"', ':'];
    assert forall|i: int| 0 <= i < k2.len() implies s.subrange(q2 + 1, q2 + 1 + k2.len())[i]
        == k2[i] by {
        assert(s[q2 + (1 + i)] == l2[1 + i]);
    }
    assert(s.subrange(q2 + 1, q2 + 1 + k2.len()) =~= k2);
    assert(starts_with_at(s, q2 + 1, k2));
    assert(plain_chars("file_name"@));
    lemma_parse_scalar_str(s, q3, a.file_name);
    assert(s[q3 + 0] == e2[0]);
    assert(!is_json_ws(s[q3])) by {
        assert(e2[0] == '"');
        assert('"' as u32 == 34);
    }
    lemma_parse_pair_at(s, q2 + 1, "file_name"@, ScalarVal::Str(a.file_name), q4);
    // pair 3: "file_size": <integer>, delimited by the comma that follows
    let k3 = seq!['"'] + "file_size"@ + seq!['"', ':'];
    assert forall|i: int| 0 <= i < k3.len() implies s.subrange(q4 + 1, q4 + 1 + k3.len())[i]
        == k3[i] by {
        assert(s[q4 + (1 + i)] == l3[1 + i]);
    }
    assert(s.subrange(q4 + 1, q4 + 1 + k3.len()) =~= k3);
    assert(starts_with_at(s, q4 + 1, k3));
    assert(plain_chars("file_size"@));
    assert(s[q6 + 0] == l4[0]);
    assert(s[q6] == ',');
    assert(!is_digit(s[q6])) by {
        assert(',' as u32 == 44);
    }
    lemma_parse_scalar_int(s, q5, a.file_size);
    lemma_dec_digits_shape(if a.file_size < 0 {
        (-a.file_size) as nat
    } else {
        a.file_size as nat
    });
    assert(s[q5 + 0] == ic[0]);
    assert(!is_json_ws(s[q5])) by {
        if a.file_size < 0 {
            assert(ic[0] == '-');
            assert('-' as u32 == 45);
        } else {
            assert(is_digit(ic[0]));
            if is_json_ws(s[q5]) {
                assert(s[q5] == ' ' || s[q5] == '\t' || s[q5] == '\n' || s[q5] == '\r');
                assert(s[q5] as u32 == 32 || s[q5] as u32 == 9 || s[q5] as u32 == 10 || s[q5]
                    as u32 == 13);
            }
        }
    }
    lemma_parse_pair_at(s, q4 + 1, "file_size"@, ScalarVal::Int(a.file_size), q6);
    // pair 4: "kind": <string>
    let k4 = seq!['"'] + "kind"@ + seq!['"', ':'];
    assert forall|i: int| 0 <= i < k4.len() implies s.subrange(q6 + 1, q6 + 1 + k4.len())[i]
        == k4[i] by {
        assert(s[q6 + (1 + i)] == l4[1 + i]);
    }
    assert(s.subrange(q6 + 1, q6 + 1 + k4.len()) =~= k4);
    assert(starts_with_at(s, q6 + 1, k4));
    assert(plain_chars("kind"@));
    lemma_parse_scalar_str(s, q7, a.kind);
    assert(s[q7 + 0] == e3[0]);
    assert(!is_json_ws(s[q7])) by {
        assert(e3[0] == '"');
        assert('"' as u32 == 34);
    }
    lemma_parse_pair_at(s, q6 + 1, "kind"@, ScalarVal::Str(a.kind), q8);
    assert(s[pos + 0] == l1[0]);
    assert(s[pos + 1] == l1[1]);
    assert(s[q2 + 0] == l2[0]);
    assert(s[q4 + 0] == l3[0]);
    assert(s[q8 + 0] == "}"@[0]);
}

#[verifier::rlimit(100)]
#[verifier::spinoff_prover]
proof fn lemma_parse_att_obj(s: Seq<char>, pos: int, a: crate::protocol::AttachmentView)
    requires
        0 <= pos,
        -9223372036854775808 <= a.file_size <= 9223372036854775807,
        starts_with_at(s, pos, crate::codec::enc_att(a)),
    ensures
        parse_flat_obj(s, pos) == Some((att_pairs(a), pos + crate::codec::enc_att(a).len())),
{
    reveal_strlit("{\"file_path\":");
    reveal_strlit(",\"file_name\":");
    reveal_strlit(",\"file_size\":");
    reveal_strlit(",\"kind\":");
    reveal_strlit("}");
    lemma_att_obj_pairs(s, pos, a);
    let q1 = pos + "{\"file_path\":"@.len();
    let q2 = q1 + crate::codec::enc_str(a.file_path).len();
    let q3 = q2 + ",\"file_name\":"@.len();
    let q4 = q3 + crate::codec::enc_str(a.file_name).len();
    let q5 = q4 + ",\"file_size\":"@.len();
    let q6 = q5 + int_chars(a.file_size).len();
    let q7 = q6 + ",\"kind\":"@.len();
    let q8 = q7 + crate::codec::enc_str(a.kind).len();
    // the walk: '{', four pairs joined by commas, '}'
    assert(s[pos] == '{');
    assert(s[pos + 1] == '"');
    assert(!is_json_ws('"') && '"' != '}') by {
        assert('"' as u32 == 34);
        assert('}' as u32 == 125);
    }
    lemma_skip_ws_no(s, pos + 1);
    assert(s[q8] == '}');
    assert(!is_json_ws('}') && '}' != ',') by {
        assert('}' as u32 == 125);
    }
    lemma_skip_ws_no(s, q8);
    assert(parse_flat_tail(s, q8) == Some((Seq::<(Seq<char>, ScalarVal)>::empty(), q8 + 1)));
    assert(s[q6] == ',');
    assert(!is_json_ws(',') && ',' != '}') by {
        assert(',' as u32 == 44);
    }
    lemma_skip_ws_no(s, q6);
    assert(parse_flat_tail(s, q6) == Some((seq![("kind"@, ScalarVal::Str(a.kind))], q8 + 1))) by {
        assert(q6 < q8 <= s.len());
        assert(seq![("kind"@, ScalarVal::Str(a.kind))] + Seq::<(Seq<char>, ScalarVal)>::empty()
            =~= seq![("kind"@, ScalarVal::Str(a.kind))]);
    }
    assert(s[q4] == ',');
    lemma_skip_ws_no(s, q4);
    let tail3 = seq![("file_size"@, ScalarVal::Int(a.file_size))] + seq![
        ("kind"@, ScalarVal::Str(a.kind)),
    ];
    assert(parse_flat_tail(s, q4) == Some((tail3, q8 + 1))) by {
        assert(q4 < q6 <= s.len());
    }
    assert(s[q2] == ',');
    lemma_skip_ws_no(s, q2);
    let tail2 = seq![("file_name"@, ScalarVal::Str(a.file_name))] + tail3;
    assert(parse_flat_tail(s, q2) == Some((tail2, q8 + 1))) by {
        assert(q2 < q4 <= s.len());
    }
    let full = seq![("file_path"@, ScalarVal::Str(a.file_path))] + tail2;
    assert(parse_flat_obj(s, pos) == Some((full, q8 + 1)));
    assert(full =~= att_pairs(a));
}


// ---------- arrays of attachment objects ----------

/// The frame text that follows the first object of a non-empty attachment
/// array: zero or more comma-separated objects, then the closing bracket.
pub open spec fn enc_atts_tail(atts: Seq<crate::protocol::AttachmentView>) -> Seq<char>
    decreases atts.len(),
{
    if atts.len() == 0 {
        "]"@
    } else {
        ","@ + crate::codec::enc_att(atts[0]) + enc_atts_tail(atts.drop_first())
    }
}

#[verifier::rlimit(80)]
proof fn lemma_enc_atts_tail_connect(atts: Seq<crate::protocol::AttachmentView>)
    requires
        atts.len() > 0,
    ensures
        crate::codec::enc_atts(atts) + "]"@ == crate::codec::enc_att(atts[0]) + enc_atts_tail(
            atts.drop_first(),
        ),
    decreases atts.len(),
{
    if atts.len() == 1 {
        assert(atts.drop_first().len() == 0);
        assert(crate::codec::enc_atts(atts) == crate::codec::enc_att(atts[0]));
        assert(enc_atts_tail(atts.drop_first()) == "]"@);
    } else {
        lemma_enc_atts_tail_connect(atts.drop_first());
        let x = crate::codec::enc_att(atts[0]);
        let c = ","@;
        let r = crate::codec::enc_atts(atts.drop_first());
        let br = "]"@;
        let t2 = enc_atts_tail(atts.drop_first().drop_first());
        assert(crate::codec::enc_atts(atts) == x + c + r);
        assert(atts.drop_first()[0] == atts[1]);
        assert(enc_atts_tail(atts.drop_first()) == c + crate::codec::enc_att(atts[1]) + t2);
        assert(crate::codec::enc_atts(atts) + br =~= x + (c + (r + br)));
        assert(r + br == crate::codec::enc_att(atts[1]) + t2);
        assert(x + (c + (crate::codec::enc_att(atts[1]) + t2)) =~= x + (c + crate::codec::enc_att(
            atts[1],
        ) + t2));
        assert(crate::codec::enc_atts(atts) + "]"@ == crate::codec::enc_att(atts[0])
            + enc_atts_tail(atts.drop_first()));
    }
}


proof fn lemma_enc_att_first(a: crate::protocol::AttachmentView)
    ensures
        crate::codec::enc_att(a).len() > 0,
        crate::codec::enc_att(a)[0] == '{',
{
    reveal_strlit("{\"file_path\":");
    let l1 = "{\"file_path\":"@;
    let w = crate::codec::enc_att(a);
    assert(w[0] == l1[0]);
}

#[verifier::rlimit(80)]
proof fn lemma_parse_objs_tail_at(s: Seq<char>, pos: int, atts: Seq<
    crate::protocol::AttachmentView,
>)
    requires
        0 <= pos,
        atts_size_ok(atts),
        starts_with_at(s, pos, enc_atts_tail(atts)),
    ensures
        parse_objs_tail(s, pos) == Some((att_objs(atts), pos + enc_atts_tail(atts).len())),
    decreases atts.len(),
{
    reveal_strlit("]");
    reveal_strlit(",");
    reveal_strlit("{\"file_path\":");
    let w = enc_atts_tail(atts);
    lemma_starts_with_chars(s, pos, w);
    assert(s[pos + 0] == w[0]);
    if atts.len() == 0 {
        assert(w == "]"@);
        assert(s[pos] == ']');
        assert(!is_json_ws(']') && ']' != ',') by {
            assert(']' as u32 == 93);
        }
        lemma_skip_ws_no(s, pos);
        assert(att_objs(atts) =~= Seq::<Seq<(Seq<char>, ScalarVal)>>::empty());
    } else {
        let a0 = atts[0];
        let ea = crate::codec::enc_att(a0);
        let rest = atts.drop_first();
        assert(w == ","@ + ea + enc_atts_tail(rest));
        assert(s[pos] == ',') by {
            assert(w[0] == (","@ + (ea + enc_atts_tail(rest)))[0]) by {
                assert(w =~= ","@ + (ea + enc_atts_tail(rest)));
            }
        }
        assert(!is_json_ws(',') && ',' != ']') by {
            assert(',' as u32 == 44);
        }
        lemma_skip_ws_no(s, pos);
        assert(starts_with_at(s, pos + 1, ea) && starts_with_at(
            s,
            pos + 1 + ea.len(),
            enc_atts_tail(rest),
        )) by {
            assert(w =~= ","@ + (ea + enc_atts_tail(rest)));
            lemma_starts_with_concat(s, pos, ","@, ea + enc_atts_tail(rest));
            lemma_starts_with_concat(s, pos + 1, ea, enc_atts_tail(rest));
        }
        assert(-9223372036854775808 <= a0.file_size <= 9223372036854775807);
        lemma_parse_att_obj(s, pos + 1, a0);
        let e = pos + 1 + ea.len();
        lemma_starts_with_chars(s, pos + 1, ea);
        assert(s[pos + 1 + 0] == ea[0]);
        assert(s[pos + 1] == '{') by {
            lemma_enc_att_first(a0);
        }
        assert(!is_json_ws('{')) by {
            assert('{' as u32 == 123);
        }
        lemma_skip_ws_no(s, pos + 1);
        assert(atts_size_ok(rest)) by {
            assert(forall|i: int| 0 <= i < rest.len() ==> rest[i] == atts[i + 1]);
        }
        lemma_parse_objs_tail_at(s, e, rest);
        assert(pos < e <= s.len()) by {
            assert(pos + w.len() <= s.len());
            assert(enc_atts_tail(rest).len() >= 0);
            assert(w.len() == 1 + ea.len() + enc_atts_tail(rest).len());
        }
        assert(parse_objs_tail(s, pos) == Some(
            (seq![att_pairs(a0)] + att_objs(rest), e + enc_atts_tail(rest).len()),
        ));
        assert(seq![att_pairs(a0)] + att_objs(rest) =~= att_objs(atts));
        assert(e + enc_atts_tail(rest).len() == pos + w.len());
    }
}

#[verifier::rlimit(80)]
proof fn lemma_parse_arr_at(s: Seq<char>, pos: int, atts: Seq<crate::protocol::AttachmentView>)
    requires
        0 <= pos,
        atts.len() > 0,
        atts_size_ok(atts),
        starts_with_at(s, pos, "["@ + crate::codec::enc_atts(atts) + "]"@),
    ensures
        parse_arr(s, pos) == Some(
            (att_objs(atts), pos + 2 + crate::codec::enc_atts(atts).len()),
        ),
{
    reveal_strlit("[");
    reveal_strlit("]");
    reveal_strlit("{\"file_path\":");
    let ea = crate::codec::enc_att(atts[0]);
    let w = "["@ + crate::codec::enc_atts(atts) + "]"@;
    lemma_enc_atts_tail_connect(atts);
    assert(starts_with_at(s, pos, "["@) && starts_with_at(
        s,
        pos + 1,
        crate::codec::enc_atts(atts) + "]"@,
    )) by {
        assert(w =~= "["@ + (crate::codec::enc_atts(atts) + "]"@));
        lemma_starts_with_concat(s, pos, "["@, crate::codec::enc_atts(atts) + "]"@);
    }
    lemma_starts_with_chars(s, pos, "["@);
    assert(s[pos + 0] == "["@[0]);
    assert(s[pos] == '[');
    assert(starts_with_at(s, pos + 1, ea) && starts_with_at(
        s,
        pos + 1 + ea.len(),
        enc_atts_tail(atts.drop_first()),
    )) by {
        assert(crate::codec::enc_atts(atts) + "]"@ =~= ea + enc_atts_tail(atts.drop_first()));
        lemma_starts_with_concat(s, pos + 1, ea, enc_atts_tail(atts.drop_first()));
    }
    lemma_starts_with_chars(s, pos + 1, ea);
    assert(s[pos + 1 + 0] == ea[0]);
    assert(s[pos + 1] == '{') by {
        lemma_enc_att_first(atts[0]);
    }
    assert(!is_json_ws('{') && '{' != ']') by {
        assert('{' as u32 == 123);
        assert(']' as u32 == 93);
    }
    lemma_skip_ws_no(s, pos + 1);
    assert(-9223372036854775808 <= atts[0].file_size <= 9223372036854775807);
    lemma_parse_att_obj(s, pos + 1, atts[0]);
    let e = pos + 1 + ea.len();
    assert(atts_size_ok(atts.drop_first())) by {
        assert(forall|i: int|
            0 <= i < atts.drop_first().len() ==> atts.drop_first()[i] == atts[i + 1]);
    }
    lemma_parse_objs_tail_at(s, e, atts.drop_first());
    assert(parse_arr(s, pos) == Some(
        (
            seq![att_pairs(atts[0])] + att_objs(atts.drop_first()),
            e + enc_atts_tail(atts.drop_first()).len(),
        ),
    ));
    assert(seq![att_pairs(atts[0])] + att_objs(atts.drop_first()) =~= att_objs(atts));
    assert(ea.len() + enc_atts_tail(atts.drop_first()).len() == crate::codec::enc_atts(
        atts,
    ).len() + 1) by {
        assert((crate::codec::enc_atts(atts) + "]"@).len() == (ea + enc_atts_tail(
            atts.drop_first(),
        )).len());
    }
}



// one top-level pair whose value is a canonically encoded string
proof fn lemma_top_pair_str(s: Seq<char>, ppos: int, key: Seq<char>, value: Seq<char>)
    requires
        0 <= ppos,
        plain_chars(key),
        starts_with_at(s, ppos, seq!['"'] + key + seq!['"', ':']),
        starts_with_at(s, ppos + key.len() + 3, crate::codec::enc_str(value)),
    ensures
        parse_top_pair(s, ppos) == Some(
            (
                (key, TopVal::Scalar(ScalarVal::Str(value))),
                ppos + key.len() + 3 + crate::codec::enc_str(value).len(),
            ),
        ),
{
    let vpos = ppos + key.len() + 3;
    let ev = crate::codec::enc_str(value);
    lemma_parse_scalar_str(s, vpos, value);
    lemma_starts_with_chars(s, vpos, ev);
    assert(s[vpos + 0] == ev[0]);
    assert(!is_json_ws(s[vpos]) && s[vpos] != '[') by {
        assert(ev[0] == '"');
        assert('"' as u32 == 34);
        assert('[' as u32 == 91);
    }
    assert(parse_top_val(s, vpos) == Some((TopVal::Scalar(ScalarVal::Str(value)), vpos + ev.len())));
    lemma_parse_top_pair_at(s, ppos, key, TopVal::Scalar(ScalarVal::Str(value)), vpos + ev.len());
}

// one top-level pair whose value is an integer, delimited by a non-digit
proof fn lemma_top_pair_int(s: Seq<char>, ppos: int, key: Seq<char>, n: int)
    requires
        0 <= ppos,
        plain_chars(key),
        -9223372036854775808 <= n <= 9223372036854775807,
        starts_with_at(s, ppos, seq!['"'] + key + seq!['"', ':']),
        starts_with_at(s, ppos + key.len() + 3, int_chars(n)),
        ppos + key.len() + 3 + int_chars(n).len() == s.len() || !is_digit(
            s[ppos + key.len() + 3 + int_chars(n).len()],
        ),
    ensures
        parse_top_pair(s, ppos) == Some(
            ((key, TopVal::Scalar(ScalarVal::Int(n))), ppos + key.len() + 3 + int_chars(n).len()),
        ),
{
    let vpos = ppos + key.len() + 3;
    let ic = int_chars(n);
    lemma_parse_scalar_int(s, vpos, n);
    lemma_starts_with_chars(s, vpos, ic);
    lemma_dec_digits_shape(if n < 0 {
        (-n) as nat
    } else {
        n as nat
    });
    assert(s[vpos + 0] == ic[0]);
    assert(!is_json_ws(s[vpos]) && s[vpos] != '[') by {
        if n < 0 {
            assert(ic[0] == '-');
            assert('-' as u32 == 45);
        } else {
            assert(is_digit(ic[0]));
            assert(48 <= s[vpos] as u32 <= 57);
            if is_json_ws(s[vpos]) {
                assert(s[vpos] as u32 == 32 || s[vpos] as u32 == 9 || s[vpos] as u32 == 10
                    || s[vpos] as u32 == 13);
            }
            if s[vpos] == '[' {
                assert(s[vpos] as u32 == 91);
            }
        }
    }
    assert(parse_top_val(s, vpos) == Some((TopVal::Scalar(ScalarVal::Int(n)), vpos + ic.len())));
    lemma_parse_top_pair_at(s, ppos, key, TopVal::Scalar(ScalarVal::Int(n)), vpos + ic.len());
}

// one top-level pair whose value is the null literal
proof fn lemma_top_pair_null(s: Seq<char>, ppos: int, key: Seq<char>)
    requires
        0 <= ppos,
        plain_chars(key),
        starts_with_at(s, ppos, seq!['"'] + key + seq!['"', ':']),
        starts_with_at(s, ppos + key.len() + 3, "null"@),
    ensures
        parse_top_pair(s, ppos) == Some(
            ((key, TopVal::Scalar(ScalarVal::Null)), ppos + key.len() + 7),
        ),
{
    reveal_strlit("null");
    let vpos = ppos + key.len() + 3;
    lemma_parse_scalar_null(s, vpos);
    lemma_starts_with_chars(s, vpos, "null"@);
    assert(s[vpos + 0] == "null"@[0]);
    assert(!is_json_ws(s[vpos]) && s[vpos] != '[') by {
        assert(s[vpos] == 'n');
        assert('n' as u32 == 110);
    }
    assert(parse_top_val(s, vpos) == Some((TopVal::Scalar(ScalarVal::Null), vpos + 4)));
    lemma_parse_top_pair_at(s, ppos, key, TopVal::Scalar(ScalarVal::Null), vpos + 4);
}

// ---------- the message frame ----------

/// The text of the `message` frame up to (not including) the attachments
/// field and the closing brace.
pub open spec fn msg_head(
    author: Seq<char>,
    body: Seq<char>,
    sent_at: Seq<char>,
    channel_id: int,
) -> Seq<char> {
    "{\"type\":\"message\",\"author\":"@ + crate::codec::enc_str(author) + ",\"body\":"@
        + crate::codec::enc_str(body) + ",\"sent_at\":"@ + crate::codec::enc_str(sent_at)
        + ",\"channel_id\":"@ + int_chars(channel_id) + ",\"client_id\":null"@
}

/// The fields a parsed `message` frame yields, before any attachments field.
pub open spec fn msg_head_fields(
    author: Seq<char>,
    body: Seq<char>,
    sent_at: Seq<char>,
    channel_id: int,
    tail_fields: Seq<(Seq<char>, TopVal)>,
) -> Seq<(Seq<char>, TopVal)> {
    seq![("type"@, TopVal::Scalar(ScalarVal::Str("message"@)))] + (seq![
        ("author"@, TopVal::Scalar(ScalarVal::Str(author))),
    ] + (seq![("body"@, TopVal::Scalar(ScalarVal::Str(body)))] + (seq![
        ("sent_at"@, TopVal::Scalar(ScalarVal::Str(sent_at))),
    ] + (seq![("channel_id"@, TopVal::Scalar(ScalarVal::Int(channel_id)))] + (seq![
        ("client_id"@, TopVal::Scalar(ScalarVal::Null)),
    ] + tail_fields)))))
}

#[verifier::rlimit(100)]
#[verifier::spinoff_prover]
proof fn lemma_msg_pairs_a(
    s: Seq<char>,
    author: Seq<char>,
    body: Seq<char>,
    sent_at: Seq<char>,
    channel_id: int,
)
    requires
        -9223372036854775808 <= channel_id <= 9223372036854775807,
        starts_with_at(s, 0, msg_head(author, body, sent_at, channel_id)),
    ensures
        ({
            let q1 = 0int + "{\"type\":\"message\",\"author\":"@.len();
            let q2 = q1 + crate::codec::enc_str(author).len();
            let q3 = q2 + ",\"body\":"@.len();
            let q4 = q3 + crate::codec::enc_str(body).len();
            let q5 = q4 + ",\"sent_at\":"@.len();
            let q6 = q5 + crate::codec::enc_str(sent_at).len();
            let q7 = q6 + ",\"channel_id\":"@.len();
            let q8 = q7 + int_chars(channel_id).len();
            let q9 = q8 + ",\"client_id\":null"@.len();
            {
            &&& s.len() >= q9
            &&& s[0] == '{'
            &&& s[1] == '"'
            &&& s[17] == ','
            &&& s[q2] == ','
            &&& parse_top_pair(s, 1) == Some::<((Seq<char>, TopVal), int)>(
                (("type"@, TopVal::Scalar(ScalarVal::Str("message"@))), 17),
            )
            &&& parse_top_pair(s, 18) == Some::<((Seq<char>, TopVal), int)>(
                (("author"@, TopVal::Scalar(ScalarVal::Str(author))), q2),
            )
            &&& parse_top_pair(s, q2 + 1) == Some::<((Seq<char>, TopVal), int)>(
                (("body"@, TopVal::Scalar(ScalarVal::Str(body))), q4),
            )
            }
        }),
{
    reveal_strlit("{\"type\":\"message\",\"author\":");
    reveal_strlit(",\"body\":");
    reveal_strlit(",\"sent_at\":");
    reveal_strlit(",\"channel_id\":");
    reveal_strlit(",\"client_id\":null");
    reveal_strlit("type");
    reveal_strlit("message");
    reveal_strlit("author");
    reveal_strlit("body");
    reveal_strlit("sent_at");
    reveal_strlit("channel_id");
    reveal_strlit("client_id");
    reveal_strlit("null");
    let l1 = "{\"type\":\"message\",\"author\":"@;
    let l2 = ",\"body\":"@;
    let l3 = ",\"sent_at\":"@;
    let l4 = ",\"channel_id\":"@;
    let l5 = ",\"client_id\":null"@;
    let ea = crate::codec::enc_str(author);
    let eb = crate::codec::enc_str(body);
    let es = crate::codec::enc_str(sent_at);
    let ic = int_chars(channel_id);
    let w = msg_head(author, body, sent_at, channel_id);
    assert(w == l1 + ea + l2 + eb + l3 + es + l4 + ic + l5);
    let q1 = 0int + l1.len();
    let q2 = q1 + ea.len();
    let q3 = q2 + l2.len();
    let q4 = q3 + eb.len();
    let q5 = q4 + l3.len();
    let q6 = q5 + es.len();
    let q7 = q6 + l4.len();
    let q8 = q7 + ic.len();
    let q9 = q8 + l5.len();
    assert(starts_with_at(s, 0, l1 + ea + l2 + eb + l3 + es + l4 + ic) && starts_with_at(
        s,
        q8,
        l5,
    )) by {
        lemma_starts_with_concat(s, 0, l1 + ea + l2 + eb + l3 + es + l4 + ic, l5);
    }
    assert(starts_with_at(s, 0, l1 + ea + l2 + eb + l3 + es + l4) && starts_with_at(s, q7, ic))
        by {
        lemma_starts_with_concat(s, 0, l1 + ea + l2 + eb + l3 + es + l4, ic);
    }
    assert(starts_with_at(s, 0, l1 + ea + l2 + eb + l3 + es) && starts_with_at(s, q6, l4)) by {
        lemma_starts_with_concat(s, 0, l1 + ea + l2 + eb + l3 + es, l4);
    }
    assert(starts_with_at(s, 0, l1 + ea + l2 + eb + l3) && starts_with_at(s, q5, es)) by {
        lemma_starts_with_concat(s, 0, l1 + ea + l2 + eb + l3, es);
    }
    assert(starts_with_at(s, 0, l1 + ea + l2 + eb) && starts_with_at(s, q4, l3)) by {
        lemma_starts_with_concat(s, 0, l1 + ea + l2 + eb, l3);
    }
    assert(starts_with_at(s, 0, l1 + ea + l2) && starts_with_at(s, q3, eb)) by {
        lemma_starts_with_concat(s, 0, l1 + ea + l2, eb);
    }
    assert(starts_with_at(s, 0, l1 + ea) && starts_with_at(s, q2, l2)) by {
        lemma_starts_with_concat(s, 0, l1 + ea, l2);
    }
    assert(starts_with_at(s, 0, l1) && starts_with_at(s, q1, ea)) by {
        lemma_starts_with_concat(s, 0, l1, ea);
    }
    lemma_starts_with_chars(s, 0, l1);
    lemma_starts_with_chars(s, q2, l2);
    lemma_starts_with_chars(s, q4, l3);
    lemma_starts_with_chars(s, q6, l4);
    lemma_starts_with_chars(s, q8, l5);
    // pair 1 at index 1: "type":"message" (both inside the first literal)
    let k1 = seq!['"'] + "type"@ + seq!['"', ':'];
    assert forall|i: int| 0 <= i < k1.len() implies s.subrange(1, 1int + k1.len())[i] == k1[i] by {
        assert(s[0int + (1 + i)] == l1[1 + i]);
    }
    assert(s.subrange(1, 1int + k1.len()) =~= k1);
    assert(plain_chars("type"@));
    let em = crate::codec::enc_str("message"@);
    assert(plain_chars("message"@));
    assert(escape_seq("message"@) == "message"@) by {
        lemma_escape_plain("message"@);
    }
    assert(em =~= seq!['"'] + "message"@ + seq!['"']);
    assert forall|i: int| 0 <= i < em.len() implies s.subrange(8, 8int + em.len())[i] == em[i] by {
        assert(s[0int + (8 + i)] == l1[8 + i]);
    }
    assert(s.subrange(8, 8int + em.len()) =~= em);
    assert(starts_with_at(s, 8, em));
    lemma_top_pair_str(s, 1, "type"@, "message"@);
    assert(parse_top_pair(s, 1) == Some(
        (("type"@, TopVal::Scalar(ScalarVal::Str("message"@))), 17int),
    ));
    // pair 2 at index 18: "author"
    let k2 = seq!['"'] + "author"@ + seq!['"', ':'];
    assert forall|i: int| 0 <= i < k2.len() implies s.subrange(18, 18int + k2.len())[i] == k2[i]
        by {
        assert(s[0int + (18 + i)] == l1[18 + i]);
    }
    assert(s.subrange(18, 18int + k2.len()) =~= k2);
    assert(plain_chars("author"@));
    assert(18 + "author"@.len() + 3 == q1);
    lemma_top_pair_str(s, 18, "author"@, author);
    // pair 3: "body"
    let k3 = seq!['"'] + "body"@ + seq!['"', ':'];
    assert forall|i: int| 0 <= i < k3.len() implies s.subrange(q2 + 1, q2 + 1 + k3.len())[i]
        == k3[i] by {
        assert(s[q2 + (1 + i)] == l2[1 + i]);
    }
    assert(s.subrange(q2 + 1, q2 + 1 + k3.len()) =~= k3);
    assert(plain_chars("body"@));
    assert(q2 + 1 + "body"@.len() + 3 == q3);
    lemma_top_pair_str(s, q2 + 1, "body"@, body);
    assert(s[0int + 0] == l1[0]);
    assert(s[0] == '{');
    assert(s[0int + 1] == l1[1]);
    assert(s[1] == '"');
    assert(s[0int + 17] == l1[17]);
    assert(s[17] == ',');
    assert(s[q2 + 0] == l2[0]);
    assert(s[q2] == ',');
}

#[verifier::rlimit(100)]
#[verifier::spinoff_prover]
proof fn lemma_msg_pairs_b(
    s: Seq<char>,
    author: Seq<char>,
    body: Seq<char>,
    sent_at: Seq<char>,
    channel_id: int,
)
    requires
        -9223372036854775808 <= channel_id <= 9223372036854775807,
        starts_with_at(s, 0, msg_head(author, body, sent_at, channel_id)),
    ensures
        ({
            let q1 = 0int + "{\"type\":\"message\",\"author\":"@.len();
            let q2 = q1 + crate::codec::enc_str(author).len();
            let q3 = q2 + ",\"body\":"@.len();
            let q4 = q3 + crate::codec::enc_str(body).len();
            let q5 = q4 + ",\"sent_at\":"@.len();
            let q6 = q5 + crate::codec::enc_str(sent_at).len();
            let q7 = q6 + ",\"channel_id\":"@.len();
            let q8 = q7 + int_chars(channel_id).len();
            let q9 = q8 + ",\"client_id\":null"@.len();
            {
            &&& s[q4] == ','
            &&& s[q6] == ','
            &&& s[q8] == ','
            &&& parse_top_pair(s, q4 + 1) == Some::<((Seq<char>, TopVal), int)>(
                (("sent_at"@, TopVal::Scalar(ScalarVal::Str(sent_at))), q6),
            )
            &&& parse_top_pair(s, q6 + 1) == Some::<((Seq<char>, TopVal), int)>(
                (("channel_id"@, TopVal::Scalar(ScalarVal::Int(channel_id))), q8),
            )
            &&& parse_top_pair(s, q8 + 1) == Some::<((Seq<char>, TopVal), int)>(
                (("client_id"@, TopVal::Scalar(ScalarVal::Null)), q9),
            )
            }
        }),
{
    reveal_strlit("{\"type\":\"message\",\"author\":");
    reveal_strlit(",\"body\":");
    reveal_strlit(",\"sent_at\":");
    reveal_strlit(",\"channel_id\":");
    reveal_strlit(",\"client_id\":null");
    reveal_strlit("type");
    reveal_strlit("message");
    reveal_strlit("author");
    reveal_strlit("body");
    reveal_strlit("sent_at");
    reveal_strlit("channel_id");
    reveal_strlit("client_id");
    reveal_strlit("null");
    let l1 = "{\"type\":\"message\",\"author\":"@;
    let l2 = ",\"body\":"@;
    let l3 = ",\"sent_at\":"@;
    let l4 = ",\"channel_id\":"@;
    let l5 = ",\"client_id\":null"@;
    let ea = crate::codec::enc_str(author);
    let eb = crate::codec::enc_str(body);
    let es = crate::codec::enc_str(sent_at);
    let ic = int_chars(channel_id);
    let w = msg_head(author, body, sent_at, channel_id);
    assert(w == l1 + ea + l2 + eb + l3 + es + l4 + ic + l5);
    let q1 = 0int + l1.len();
    let q2 = q1 + ea.len();
    let q3 = q2 + l2.len();
    let q4 = q3 + eb.len();
    let q5 = q4 + l3.len();
    let q6 = q5 + es.len();
    let q7 = q6 + l4.len();
    let q8 = q7 + ic.len();
    let q9 = q8 + l5.len();
    assert(starts_with_at(s, 0, l1 + ea + l2 + eb + l3 + es + l4 + ic) && starts_with_at(
        s,
        q8,
        l5,
    )) by {
        lemma_starts_with_concat(s, 0, l1 + ea + l2 + eb + l3 + es + l4 + ic, l5);
    }
    assert(starts_with_at(s, 0, l1 + ea + l2 + eb + l3 + es + l4) && starts_with_at(s, q7, ic))
        by {
        lemma_starts_with_concat(s, 0, l1 + ea + l2 + eb + l3 + es + l4, ic);
    }
    assert(starts_with_at(s, 0, l1 + ea + l2 + eb + l3 + es) && starts_with_at(s, q6, l4)) by {
        lemma_starts_with_concat(s, 0, l1 + ea + l2 + eb + l3 + es, l4);
    }
    assert(starts_with_at(s, 0, l1 + ea + l2 + eb + l3) && starts_with_at(s, q5, es)) by {
        lemma_starts_with_concat(s, 0, l1 + ea + l2 + eb + l3, es);
    }
    assert(starts_with_at(s, 0, l1 + ea + l2 + eb) && starts_with_at(s, q4, l3)) by {
        lemma_starts_with_concat(s, 0, l1 + ea + l2 + eb, l3);
    }
    assert(starts_with_at(s, 0, l1 + ea + l2) && starts_with_at(s, q3, eb)) by {
        lemma_starts_with_concat(s, 0, l1 + ea + l2, eb);
    }
    assert(starts_with_at(s, 0, l1 + ea) && starts_with_at(s, q2, l2)) by {
        lemma_starts_with_concat(s, 0, l1 + ea, l2);
    }
    assert(starts_with_at(s, 0, l1) && starts_with_at(s, q1, ea)) by {
        lemma_starts_with_concat(s, 0, l1, ea);
    }
    lemma_starts_with_chars(s, 0, l1);
    lemma_starts_with_chars(s, q2, l2);
    lemma_starts_with_chars(s, q4, l3);
    lemma_starts_with_chars(s, q6, l4);
    lemma_starts_with_chars(s, q8, l5);
    // pair 4: "sent_at"
    let k4 = seq!['"'] + "sent_at"@ + seq!['"', ':'];
    assert forall|i: int| 0 <= i < k4.len() implies s.subrange(q4 + 1, q4 + 1 + k4.len())[i]
        == k4[i] by {
        assert(s[q4 + (1 + i)] == l3[1 + i]);
    }
    assert(s.subrange(q4 + 1, q4 + 1 + k4.len()) =~= k4);
    assert(plain_chars("sent_at"@));
    assert(q4 + 1 + "sent_at"@.len() + 3 == q5);
    lemma_top_pair_str(s, q4 + 1, "sent_at"@, sent_at);
    // pair 5: "channel_id", delimited by the comma of the client_id field
    let k5 = seq!['"'] + "channel_id"@ + seq!['"', ':'];
    assert forall|i: int| 0 <= i < k5.len() implies s.subrange(q6 + 1, q6 + 1 + k5.len())[i]
        == k5[i] by {
        assert(s[q6 + (1 + i)] == l4[1 + i]);
    }
    assert(s.subrange(q6 + 1, q6 + 1 + k5.len()) =~= k5);
    assert(plain_chars("channel_id"@));
    assert(q6 + 1 + "channel_id"@.len() + 3 == q7);
    assert(s[q8 + 0] == l5[0]);
    assert(s[q8] == ',');
    assert(!is_digit(s[q8])) by {
        assert(',' as u32 == 44);
    }
    lemma_top_pair_int(s, q6 + 1, "channel_id"@, channel_id);
    // pair 6: "client_id": null
    let k6 = seq!['"'] + "client_id"@ + seq!['"', ':'];
    assert forall|i: int| 0 <= i < k6.len() implies s.subrange(q8 + 1, q8 + 1 + k6.len())[i]
        == k6[i] by {
        assert(s[q8 + (1 + i)] == l5[1 + i]);
    }
    assert(s.subrange(q8 + 1, q8 + 1 + k6.len()) =~= k6);
    assert(plain_chars("client_id"@));
    assert(q8 + 1 + "client_id"@.len() + 3 == q8 + 13);
    assert forall|i: int| 0 <= i < 4 implies s.subrange(q8 + 13, q8 + 17)[i] == "null"@[i] by {
        assert(s[q8 + (13 + i)] == l5[13 + i]);
    }
    assert(s.subrange(q8 + 13, q8 + 17) =~= "null"@);
    assert(starts_with_at(s, q8 + 13, "null"@));
    lemma_top_pair_null(s, q8 + 1, "client_id"@);
    assert(parse_top_pair(s, q8 + 1) == Some(
        (("client_id"@, TopVal::Scalar(ScalarVal::Null)), q9),
    ));
    assert(s[q4 + 0] == l3[0]);
    assert(s[q4] == ',');
    assert(s[q6 + 0] == l4[0]);
    assert(s[q6] == ',');
}

#[verifier::rlimit(100)]
#[verifier::spinoff_prover]
proof fn lemma_parse_msg_head(
    s: Seq<char>,
    author: Seq<char>,
    body: Seq<char>,
    sent_at: Seq<char>,
    channel_id: int,
    tail_fields: Seq<(Seq<char>, TopVal)>,
    end: int,
)
    requires
        -9223372036854775808 <= channel_id <= 9223372036854775807,
        starts_with_at(s, 0, msg_head(author, body, sent_at, channel_id)),
        msg_head(author, body, sent_at, channel_id).len() < s.len(),
        parse_top_tail(s, msg_head(author, body, sent_at, channel_id).len() as int) == Some(
            (tail_fields, end),
        ),
        msg_head(author, body, sent_at, channel_id).len() < end <= s.len(),
    ensures
        parse_top_obj(s, 0) == Some(
            (msg_head_fields(author, body, sent_at, channel_id, tail_fields), end),
        ),
{
    reveal_strlit("{\"type\":\"message\",\"author\":");
    reveal_strlit(",\"body\":");
    reveal_strlit(",\"sent_at\":");
    reveal_strlit(",\"channel_id\":");
    reveal_strlit(",\"client_id\":null");
    let q1 = 0int + "{\"type\":\"message\",\"author\":"@.len();
    let q2 = q1 + crate::codec::enc_str(author).len();
    let q3 = q2 + ",\"body\":"@.len();
    let q4 = q3 + crate::codec::enc_str(body).len();
    let q5 = q4 + ",\"sent_at\":"@.len();
    let q6 = q5 + crate::codec::enc_str(sent_at).len();
    let q7 = q6 + ",\"channel_id\":"@.len();
    let q8 = q7 + int_chars(channel_id).len();
    let q9 = q8 + ",\"client_id\":null"@.len();
    lemma_msg_pairs_a(s, author, body, sent_at, channel_id);
    lemma_msg_pairs_b(s, author, body, sent_at, channel_id);
    let w = msg_head(author, body, sent_at, channel_id);
    assert(q9 == w.len());
    assert(!is_json_ws('"') && '"' != '}') by {
        assert('"' as u32 == 34);
        assert('}' as u32 == 125);
    }
    assert(!is_json_ws(',') && ',' != '}') by {
        assert(',' as u32 == 44);
        assert('}' as u32 == 125);
    }
    lemma_skip_ws_no(s, 1);
    lemma_skip_ws_no(s, 17);
    lemma_skip_ws_no(s, q2);
    lemma_skip_ws_no(s, q4);
    lemma_skip_ws_no(s, q6);
    lemma_skip_ws_no(s, q8);
    let f6 = seq![("client_id"@, TopVal::Scalar(ScalarVal::Null))] + tail_fields;
    assert(parse_top_tail(s, q8) == Some((f6, end))) by {
        assert(q8 < q9 <= s.len());
    }
    let f5 = seq![("channel_id"@, TopVal::Scalar(ScalarVal::Int(channel_id)))] + f6;
    assert(parse_top_tail(s, q6) == Some((f5, end))) by {
        assert(q6 < q8 <= s.len());
    }
    let f4 = seq![("sent_at"@, TopVal::Scalar(ScalarVal::Str(sent_at)))] + f5;
    assert(parse_top_tail(s, q4) == Some((f4, end))) by {
        assert(q4 < q6 <= s.len());
    }
    let f3 = seq![("body"@, TopVal::Scalar(ScalarVal::Str(body)))] + f4;
    assert(parse_top_tail(s, q2) == Some((f3, end))) by {
        assert(q2 < q4 <= s.len());
    }
    let f2 = seq![("author"@, TopVal::Scalar(ScalarVal::Str(author)))] + f3;
    assert(parse_top_tail(s, 17) == Some((f2, end))) by {
        assert(17 < q2 <= s.len());
    }
    let f1 = seq![("type"@, TopVal::Scalar(ScalarVal::Str("message"@)))] + f2;
    assert(s[0] == '{' && s[1] == '"');
    assert(parse_top_obj(s, 0) == Some((f1, end)));
    assert(f1 == msg_head_fields(author, body, sent_at, channel_id, tail_fields));
}


// ---------- reading the parsed fields back ----------


proof fn lemma_seq_neq_at(a: Seq<char>, b: Seq<char>, i: int)
    requires
        0 <= i < a.len(),
        0 <= i < b.len(),
        a[i] != b[i],
    ensures
        a != b,
{
    if a == b {
        assert(a[i] == b[i]);
    }
}

proof fn lemma_lookup_cons(
    k0: Seq<char>,
    v0: TopVal,
    rest: Seq<(Seq<char>, TopVal)>,
    key: Seq<char>,
)
    ensures
        crate::codec::lookup_field(seq![(k0, v0)] + rest, key) == (if k0 == key {
            Some(v0)
        } else {
            crate::codec::lookup_field(rest, key)
        }),
{
    let f = seq![(k0, v0)] + rest;
    assert(f.len() > 0);
    assert(f[0] == (k0, v0));
    assert(f.drop_first() =~= rest);
}

proof fn lemma_lookup_pair_cons(
    k0: Seq<char>,
    v0: ScalarVal,
    rest: Seq<(Seq<char>, ScalarVal)>,
    key: Seq<char>,
)
    ensures
        crate::codec::lookup_pair(seq![(k0, v0)] + rest, key) == (if k0 == key {
            Some(v0)
        } else {
            crate::codec::lookup_pair(rest, key)
        }),
{
    let f = seq![(k0, v0)] + rest;
    assert(f.len() > 0);
    assert(f[0] == (k0, v0));
    assert(f.drop_first() =~= rest);
}

#[verifier::rlimit(100)]
proof fn lemma_att_of_pairs_inv(a: crate::protocol::AttachmentView)
    ensures
        crate::codec::att_of_pairs(att_pairs(a)) == Some(a),
{
    reveal_strlit("file_path");
    reveal_strlit("file_name");
    reveal_strlit("file_size");
    reveal_strlit("kind");
    let empt = Seq::<(Seq<char>, ScalarVal)>::empty();
    let r3 = seq![("kind"@, ScalarVal::Str(a.kind))] + empt;
    let r2 = seq![("file_size"@, ScalarVal::Int(a.file_size))] + r3;
    let r1 = seq![("file_name"@, ScalarVal::Str(a.file_name))] + r2;
    let r0 = seq![("file_path"@, ScalarVal::Str(a.file_path))] + r1;
    assert(att_pairs(a) =~= r0);
    assert("file_path"@ != "file_name"@) by {
        lemma_seq_neq_at("file_path"@, "file_name"@, 5);
    }
    assert("file_path"@ != "file_size"@) by {
        lemma_seq_neq_at("file_path"@, "file_size"@, 5);
    }
    assert("file_name"@ != "file_size"@) by {
        lemma_seq_neq_at("file_name"@, "file_size"@, 5);
    }
    assert("file_path"@ != "kind"@) by {
        lemma_seq_neq_at("file_path"@, "kind"@, 0);
    }
    assert("file_name"@ != "kind"@) by {
        lemma_seq_neq_at("file_name"@, "kind"@, 0);
    }
    assert("file_size"@ != "kind"@) by {
        lemma_seq_neq_at("file_size"@, "kind"@, 0);
    }
    lemma_lookup_pair_cons("file_path"@, ScalarVal::Str(a.file_path), r1, "file_path"@);
    lemma_lookup_pair_cons("file_path"@, ScalarVal::Str(a.file_path), r1, "file_name"@);
    lemma_lookup_pair_cons("file_path"@, ScalarVal::Str(a.file_path), r1, "file_size"@);
    lemma_lookup_pair_cons("file_path"@, ScalarVal::Str(a.file_path), r1, "kind"@);
    lemma_lookup_pair_cons("file_name"@, ScalarVal::Str(a.file_name), r2, "file_name"@);
    lemma_lookup_pair_cons("file_name"@, ScalarVal::Str(a.file_name), r2, "file_size"@);
    lemma_lookup_pair_cons("file_name"@, ScalarVal::Str(a.file_name), r2, "kind"@);
    lemma_lookup_pair_cons("file_size"@, ScalarVal::Int(a.file_size), r3, "file_size"@);
    lemma_lookup_pair_cons("file_size"@, ScalarVal::Int(a.file_size), r3, "kind"@);
    lemma_lookup_pair_cons("kind"@, ScalarVal::Str(a.kind), empt, "kind"@);
    assert(crate::codec::pair_str(r0, "file_path"@) == Some(a.file_path));
    assert(crate::codec::pair_str(r0, "file_name"@) == Some(a.file_name));
    assert(crate::codec::pair_int(r0, "file_size"@) == Some(a.file_size));
    assert(crate::codec::pair_str(r0, "kind"@) == Some(a.kind));
    assert(crate::codec::att_of_pairs(r0) == Some(
        crate::protocol::AttachmentView {
            file_path: a.file_path,
            file_name: a.file_name,
            file_size: a.file_size,
            kind: a.kind,
        },
    ));
    assert(crate::protocol::AttachmentView {
        file_path: a.file_path,
        file_name: a.file_name,
        file_size: a.file_size,
        kind: a.kind,
    } == a);
}

proof fn lemma_atts_of_objs_inv(atts: Seq<crate::protocol::AttachmentView>)
    ensures
        crate::codec::atts_of_objs(att_objs(atts)) == Some(atts),
    decreases atts.len(),
{
    if atts.len() == 0 {
        assert(att_objs(atts) =~= Seq::<Seq<(Seq<char>, ScalarVal)>>::empty());
        assert(crate::codec::atts_of_objs(att_objs(atts)) == Some(Seq::<
            crate::protocol::AttachmentView,
        >::empty()));
        assert(atts =~= Seq::<crate::protocol::AttachmentView>::empty());
    } else {
        let objs = att_objs(atts);
        assert(objs[0] == att_pairs(atts[0]));
        assert(objs.drop_first() =~= att_objs(atts.drop_first()));
        lemma_att_of_pairs_inv(atts[0]);
        lemma_atts_of_objs_inv(atts.drop_first());
        assert(crate::codec::atts_of_objs(objs) == Some(seq![atts[0]] + atts.drop_first()));
        assert(seq![atts[0]] + atts.drop_first() =~= atts);
    }
}


#[verifier::rlimit(60)]
proof fn lemma_msg_keys_distinct()
    ensures
        "type"@ != "author"@,
        "type"@ != "body"@,
        "type"@ != "sent_at"@,
        "type"@ != "channel_id"@,
        "type"@ != "client_id"@,
        "type"@ != "attachments"@,
        "author"@ != "body"@,
        "author"@ != "sent_at"@,
        "author"@ != "channel_id"@,
        "author"@ != "client_id"@,
        "author"@ != "attachments"@,
        "body"@ != "sent_at"@,
        "body"@ != "channel_id"@,
        "body"@ != "client_id"@,
        "body"@ != "attachments"@,
        "sent_at"@ != "channel_id"@,
        "sent_at"@ != "client_id"@,
        "sent_at"@ != "attachments"@,
        "channel_id"@ != "client_id"@,
        "channel_id"@ != "attachments"@,
        "client_id"@ != "attachments"@,
        "message"@ != "auth"@,
        "message"@ != "ack"@,
        "message"@ != "presence"@,
{
    reveal_strlit("type");
    reveal_strlit("author");
    reveal_strlit("body");
    reveal_strlit("sent_at");
    reveal_strlit("channel_id");
    reveal_strlit("client_id");
    reveal_strlit("attachments");
    reveal_strlit("message");
    reveal_strlit("auth");
    reveal_strlit("ack");
    reveal_strlit("presence");
    lemma_seq_neq_at("type"@, "author"@, 0);
    lemma_seq_neq_at("type"@, "body"@, 0);
    lemma_seq_neq_at("type"@, "sent_at"@, 0);
    lemma_seq_neq_at("type"@, "channel_id"@, 0);
    lemma_seq_neq_at("type"@, "client_id"@, 0);
    lemma_seq_neq_at("type"@, "attachments"@, 0);
    lemma_seq_neq_at("author"@, "body"@, 0);
    lemma_seq_neq_at("author"@, "sent_at"@, 0);
    lemma_seq_neq_at("author"@, "channel_id"@, 0);
    lemma_seq_neq_at("author"@, "client_id"@, 0);
    lemma_seq_neq_at("author"@, "attachments"@, 1);
    lemma_seq_neq_at("body"@, "sent_at"@, 0);
    lemma_seq_neq_at("body"@, "channel_id"@, 0);
    lemma_seq_neq_at("body"@, "client_id"@, 0);
    lemma_seq_neq_at("body"@, "attachments"@, 0);
    lemma_seq_neq_at("sent_at"@, "channel_id"@, 0);
    lemma_seq_neq_at("sent_at"@, "client_id"@, 0);
    lemma_seq_neq_at("sent_at"@, "attachments"@, 0);
    lemma_seq_neq_at("channel_id"@, "client_id"@, 1);
    lemma_seq_neq_at("channel_id"@, "attachments"@, 0);
    lemma_seq_neq_at("client_id"@, "attachments"@, 0);
    lemma_seq_neq_at("message"@, "auth"@, 0);
    lemma_seq_neq_at("message"@, "ack"@, 0);
    lemma_seq_neq_at("message"@, "presence"@, 0);
}

#[verifier::rlimit(100)]
#[verifier::spinoff_prover]
proof fn lemma_msg_fields_payload(
    author: Seq<char>,
    body: Seq<char>,
    sent_at: Seq<char>,
    channel_id: int,
    attachments: Seq<crate::protocol::AttachmentView>,
)
    ensures
        payload_of_fields_of_msg(author, body, sent_at, channel_id, attachments),
{
    reveal_strlit("type");
    reveal_strlit("message");
    reveal_strlit("author");
    reveal_strlit("body");
    reveal_strlit("sent_at");
    reveal_strlit("channel_id");
    reveal_strlit("client_id");
    reveal_strlit("attachments");
    reveal_strlit("auth");
    reveal_strlit("ack");
    reveal_strlit("presence");
    let tail = if attachments.len() == 0 {
        Seq::<(Seq<char>, TopVal)>::empty()
    } else {
        seq![("attachments"@, TopVal::Objs(att_objs(attachments)))] + Seq::<
            (Seq<char>, TopVal),
        >::empty()
    };
    let fields = msg_head_fields(author, body, sent_at, channel_id, tail);
    let f6 = seq![("client_id"@, TopVal::Scalar(ScalarVal::Null))] + tail;
    let f5 = seq![("channel_id"@, TopVal::Scalar(ScalarVal::Int(channel_id)))] + f6;
    let f4 = seq![("sent_at"@, TopVal::Scalar(ScalarVal::Str(sent_at)))] + f5;
    let f3 = seq![("body"@, TopVal::Scalar(ScalarVal::Str(body)))] + f4;
    let f2 = seq![("author"@, TopVal::Scalar(ScalarVal::Str(author)))] + f3;
    assert(fields == seq![("type"@, TopVal::Scalar(ScalarVal::Str("message"@)))] + f2);
    lemma_msg_keys_distinct();
    let keys = seq!["type"@, "author"@, "body"@, "sent_at"@, "channel_id"@, "client_id"@,
        "attachments"@];
    assert forall|ki: int| 0 <= ki < 7 implies #[trigger] lookups_hold(
        fields, f2, f3, f4, f5, f6, tail, author, body, sent_at, channel_id, keys[ki],
    ) by {
        let key = keys[ki];
        lemma_lookup_cons("type"@, TopVal::Scalar(ScalarVal::Str("message"@)), f2, key);
        lemma_lookup_cons("author"@, TopVal::Scalar(ScalarVal::Str(author)), f3, key);
        lemma_lookup_cons("body"@, TopVal::Scalar(ScalarVal::Str(body)), f4, key);
        lemma_lookup_cons("sent_at"@, TopVal::Scalar(ScalarVal::Str(sent_at)), f5, key);
        lemma_lookup_cons("channel_id"@, TopVal::Scalar(ScalarVal::Int(channel_id)), f6, key);
        lemma_lookup_cons("client_id"@, TopVal::Scalar(ScalarVal::Null), tail, key);
        if attachments.len() > 0 {
            lemma_lookup_cons(
                "attachments"@,
                TopVal::Objs(att_objs(attachments)),
                Seq::<(Seq<char>, TopVal)>::empty(),
                key,
            );
        }
    }
    assert(lookups_hold(
        fields, f2, f3, f4, f5, f6, tail, author, body, sent_at, channel_id, "type"@,
    ));
    assert(lookups_hold(
        fields, f2, f3, f4, f5, f6, tail, author, body, sent_at, channel_id, "author"@,
    ));
    assert(lookups_hold(
        fields, f2, f3, f4, f5, f6, tail, author, body, sent_at, channel_id, "body"@,
    ));
    assert(lookups_hold(
        fields, f2, f3, f4, f5, f6, tail, author, body, sent_at, channel_id, "sent_at"@,
    ));
    assert(lookups_hold(
        fields, f2, f3, f4, f5, f6, tail, author, body, sent_at, channel_id, "channel_id"@,
    ));
    assert(lookups_hold(
        fields, f2, f3, f4, f5, f6, tail, author, body, sent_at, channel_id, "client_id"@,
    ));
    assert(lookups_hold(
        fields, f2, f3, f4, f5, f6, tail, author, body, sent_at, channel_id, "attachments"@,
    ));
    assert(crate::codec::field_str(fields, "type"@) == Some("message"@));
    assert(crate::codec::field_str(fields, "author"@) == Some(author));
    assert(crate::codec::field_str(fields, "body"@) == Some(body));
    assert(crate::codec::field_str(fields, "sent_at"@) == Some(sent_at));
    assert(crate::codec::field_int(fields, "channel_id"@) == Some(channel_id));
    assert(crate::codec::field_client_id(fields) == Some(None::<Seq<char>>));
    if attachments.len() == 0 {
        assert(crate::codec::lookup_field(fields, "attachments"@) is None);
        assert(crate::codec::field_attachments(fields) == Some(Seq::<
            crate::protocol::AttachmentView,
        >::empty()));
        assert(attachments =~= Seq::<crate::protocol::AttachmentView>::empty());
    } else {
        assert(crate::codec::lookup_field(fields, "attachments"@) == Some(
            TopVal::Objs(att_objs(attachments)),
        ));
        lemma_atts_of_objs_inv(attachments);
        assert(crate::codec::field_attachments(fields) == Some(attachments));
    }

}

/// The statement that the parsed fields of a canonical `message` frame read
/// back as exactly that message payload.
pub open spec fn payload_of_fields_of_msg(
    author: Seq<char>,
    body: Seq<char>,
    sent_at: Seq<char>,
    channel_id: int,
    attachments: Seq<crate::protocol::AttachmentView>,
) -> bool {
    crate::codec::payload_of_fields(
        msg_head_fields(
            author,
            body,
            sent_at,
            channel_id,
            if attachments.len() == 0 {
                Seq::<(Seq<char>, TopVal)>::empty()
            } else {
                seq![("attachments"@, TopVal::Objs(att_objs(attachments)))] + Seq::<
                    (Seq<char>, TopVal),
                >::empty()
            },
        ),
    ) == Some(
        crate::protocol::PayloadView::Message {
            author,
            body,
            sent_at,
            channel_id,
            client_id: None,
            attachments,
        },
    )
}

/// One lookup-evaluation obligation, shared by the seven keys.
pub open spec fn lookups_hold(
    fields: Seq<(Seq<char>, TopVal)>,
    f2: Seq<(Seq<char>, TopVal)>,
    f3: Seq<(Seq<char>, TopVal)>,
    f4: Seq<(Seq<char>, TopVal)>,
    f5: Seq<(Seq<char>, TopVal)>,
    f6: Seq<(Seq<char>, TopVal)>,
    tail: Seq<(Seq<char>, TopVal)>,
    author: Seq<char>,
    body: Seq<char>,
    sent_at: Seq<char>,
    channel_id: int,
    key: Seq<char>,
) -> bool {
    crate::codec::lookup_field(fields, key) == (if "type"@ == key {
        Some(TopVal::Scalar(ScalarVal::Str("message"@)))
    } else if "author"@ == key {
        Some(TopVal::Scalar(ScalarVal::Str(author)))
    } else if "body"@ == key {
        Some(TopVal::Scalar(ScalarVal::Str(body)))
    } else if "sent_at"@ == key {
        Some(TopVal::Scalar(ScalarVal::Str(sent_at)))
    } else if "channel_id"@ == key {
        Some(TopVal::Scalar(ScalarVal::Int(channel_id)))
    } else if "client_id"@ == key {
        Some(TopVal::Scalar(ScalarVal::Null))
    } else {
        crate::codec::lookup_field(tail, key)
    })
}


// ---------- the round-trip law ----------


// the bracketed array text, rebuilt from its three adjacent segments
proof fn lemma_arr_text_at(s: Seq<char>, vpos: int, ec: Seq<char>)
    requires
        0 <= vpos,
        vpos + 1 + ec.len() + 1 <= s.len(),
        s[vpos] == '[',
        forall|i: int| 0 <= i < ec.len() ==> s[vpos + 1 + i] == ec[i],
        s[vpos + 1 + ec.len()] == ']',
    ensures
        starts_with_at(s, vpos, "["@ + ec + "]"@),
{
    reveal_strlit("[");
    reveal_strlit("]");
    let aw = "["@ + ec + "]"@;
    let n = ec.len() as int;
    assert forall|i: int| 0 <= i < aw.len() implies s.subrange(vpos, vpos + aw.len())[i]
        == aw[i] by {
        if i == 0 {
        } else if i <= n {
            assert(s[vpos + 1 + (i - 1)] == ec[i - 1]);
        } else {
            assert(s[vpos + 1 + ec.len()] == ']');
        }
    }
    assert(s.subrange(vpos, vpos + aw.len()) =~= aw);
}

#[verifier::rlimit(100)]
#[verifier::spinoff_prover]
proof fn lemma_frame_of_encoded_message_bare(
    author: Seq<char>,
    body: Seq<char>,
    sent_at: Seq<char>,
    channel_id: int,
    attachments: Seq<crate::protocol::AttachmentView>,
)
    requires
        -9223372036854775808 <= channel_id <= 9223372036854775807,
        atts_size_ok(attachments),
        attachments.len() == 0,
    ensures
        parse_frame(crate::codec::enc_message_payload(author, body, sent_at, channel_id, attachments))
            == Some(
            msg_head_fields(
                author,
                body,
                sent_at,
                channel_id,
                if attachments.len() == 0 {
                    Seq::<(Seq<char>, TopVal)>::empty()
                } else {
                    seq![("attachments"@, TopVal::Objs(att_objs(attachments)))] + Seq::<
                        (Seq<char>, TopVal),
                    >::empty()
                },
            ),
        ),
{
    reveal_strlit("}");
    reveal_strlit("]");
    reveal_strlit("[");
    reveal_strlit(",\"attachments\":[");
    reveal_strlit("attachments");
    let s = crate::codec::enc_message_payload(author, body, sent_at, channel_id, attachments);
    let head = msg_head(author, body, sent_at, channel_id);
    let q9 = head.len() as int;
    assert(starts_with_at(s, 0, s)) by {
        assert(s.subrange(0, s.len() as int) =~= s);
    }
    assert(!is_json_ws('}') && '}' != ',') by {
        assert('}' as u32 == 125);
        assert(',' as u32 == 44);
    }
    assert(s == head + "}"@);
    lemma_starts_with_concat(s, 0, head, "}"@);
    lemma_starts_with_chars(s, q9, "}"@);
    assert(s[q9 + 0] == "}"@[0]);
    assert(s[q9] == '}');
    lemma_skip_ws_no(s, q9);
    assert(parse_top_tail(s, q9) == Some((Seq::<(Seq<char>, TopVal)>::empty(), q9 + 1)));
    assert(q9 + 1 == s.len());
    lemma_parse_msg_head(
        s,
        author,
        body,
        sent_at,
        channel_id,
        Seq::<(Seq<char>, TopVal)>::empty(),
        s.len() as int,
    );
    lemma_msg_pairs_a(s, author, body, sent_at, channel_id);
    assert(!is_json_ws('{')) by {
        assert('{' as u32 == 123);
    }
    lemma_skip_ws_no(s, 0);
    assert(skip_ws(s, s.len() as int) == s.len());
}

#[verifier::rlimit(100)]
#[verifier::spinoff_prover]
proof fn lemma_attachments_tail_at(
    s: Seq<char>,
    q9: int,
    attachments: Seq<crate::protocol::AttachmentView>,
)
    requires
        0 <= q9,
        attachments.len() > 0,
        atts_size_ok(attachments),
        starts_with_at(s, q9, ",\"attachments\":["@),
        starts_with_at(s, q9 + 16, crate::codec::enc_atts(attachments)),
        starts_with_at(s, q9 + 16 + crate::codec::enc_atts(attachments).len(), "]"@),
        starts_with_at(s, q9 + 17 + crate::codec::enc_atts(attachments).len(), "}"@),
        q9 + 18 + crate::codec::enc_atts(attachments).len() == s.len(),
    ensures
        parse_top_tail(s, q9) == Some(
            (
                seq![("attachments"@, TopVal::Objs(att_objs(attachments)))] + Seq::<
                    (Seq<char>, TopVal),
                >::empty(),
                s.len() as int,
            ),
        ),
{
    reveal_strlit("}");
    reveal_strlit("]");
    reveal_strlit("[");
    reveal_strlit(",\"attachments\":[");
    reveal_strlit("attachments");
    let l6 = ",\"attachments\":["@;
    let ec = crate::codec::enc_atts(attachments);
    let n = ec.len() as int;
    let vpos = q9 + 15;
    let e7 = vpos + 2 + n;
    lemma_starts_with_chars(s, q9, l6);
    lemma_starts_with_chars(s, q9 + 16, ec);
    lemma_starts_with_chars(s, q9 + 16 + n, "]"@);
    lemma_starts_with_chars(s, e7, "}"@);
    // the array text `[ ... ]` as one piece
    let aw = "["@ + ec + "]"@;
    assert(starts_with_at(s, vpos, aw)) by {
        assert(s[q9 + 15] == l6[15]);
        assert(s[q9 + 16 + n + 0] == "]"@[0]);
        assert forall|i: int| 0 <= i < ec.len() implies s[vpos + 1 + i] == ec[i] by {
            assert(s[q9 + 16 + i] == ec[i]);
        }
        lemma_arr_text_at(s, vpos, ec);
    }
    lemma_parse_arr_at(s, vpos, attachments);
    assert(parse_arr(s, vpos) == Some((att_objs(attachments), e7)));
    assert(s[vpos + 0] == aw[0]) by {
        lemma_starts_with_chars(s, vpos, aw);
    }
    assert(s[vpos] == '[') by {
        assert(aw[0] == '[');
    }
    assert(parse_top_val(s, vpos) == Some((TopVal::Objs(att_objs(attachments)), e7)));
    // the pair `"attachments": [...]`
    let k7 = seq!['"'] + "attachments"@ + seq!['"', ':'];
    assert forall|i: int| 0 <= i < k7.len() implies s.subrange(q9 + 1, q9 + 1 + k7.len())[i]
        == k7[i] by {
        assert(s[q9 + (1 + i)] == l6[1 + i]);
    }
    assert(s.subrange(q9 + 1, q9 + 1 + k7.len()) =~= k7);
    assert(starts_with_at(s, q9 + 1, k7));
    assert(plain_chars("attachments"@));
    assert(q9 + 1 + "attachments"@.len() + 3 == vpos);
    assert(!is_json_ws(s[vpos]) && vpos < s.len()) by {
        assert(s[vpos] == '[');
        assert('[' as u32 == 91);
    }
    lemma_parse_top_pair_at(s, q9 + 1, "attachments"@, TopVal::Objs(att_objs(attachments)), e7);
    // the tail after the client_id field: the attachments pair, then `}`
    assert(s[e7 + 0] == "}"@[0]);
    assert(s[e7] == '}');
    assert(!is_json_ws('}') && '}' != ',') by {
        assert('}' as u32 == 125);
        assert(',' as u32 == 44);
    }
    lemma_skip_ws_no(s, e7);
    assert(parse_top_tail(s, e7) == Some((Seq::<(Seq<char>, TopVal)>::empty(), e7 + 1)));
    assert(e7 + 1 == s.len());
    assert(s[q9 + 0] == l6[0]);
    assert(s[q9] == ',');
    assert(!is_json_ws(',') && ',' != '}') by {
        assert(',' as u32 == 44);
        assert('}' as u32 == 125);
    }
    lemma_skip_ws_no(s, q9);
    let tailf = seq![("attachments"@, TopVal::Objs(att_objs(attachments)))] + Seq::<
        (Seq<char>, TopVal),
    >::empty();
    assert(parse_top_tail(s, q9) == Some((tailf, e7 + 1))) by {
        assert(q9 < e7 <= s.len());
    }
}

#[verifier::rlimit(100)]
#[verifier::spinoff_prover]
proof fn lemma_frame_of_encoded_message_full(
    author: Seq<char>,
    body: Seq<char>,
    sent_at: Seq<char>,
    channel_id: int,
    attachments: Seq<crate::protocol::AttachmentView>,
)
    requires
        -9223372036854775808 <= channel_id <= 9223372036854775807,
        atts_size_ok(attachments),
        attachments.len() > 0,
    ensures
        parse_frame(crate::codec::enc_message_payload(author, body, sent_at, channel_id, attachments))
            == Some(
            msg_head_fields(
                author,
                body,
                sent_at,
                channel_id,
                seq![("attachments"@, TopVal::Objs(att_objs(attachments)))] + Seq::<
                    (Seq<char>, TopVal),
                >::empty(),
            ),
        ),
{
    reveal_strlit("}");
    reveal_strlit("]");
    reveal_strlit(",\"attachments\":[");
    let s = crate::codec::enc_message_payload(author, body, sent_at, channel_id, attachments);
    let head = msg_head(author, body, sent_at, channel_id);
    let q9 = head.len() as int;
    let l6 = ",\"attachments\":["@;
    let ec = crate::codec::enc_atts(attachments);
    let n = ec.len() as int;
    assert(s == head + l6 + ec + "]"@ + "}"@);
    let e7 = q9 + 17 + n;
    assert(starts_with_at(s, 0, s)) by {
        assert(s.subrange(0, s.len() as int) =~= s);
    }
    assert(starts_with_at(s, 0, head + l6 + ec + "]"@) && starts_with_at(s, e7, "}"@)) by {
        lemma_starts_with_concat(s, 0, head + l6 + ec + "]"@, "}"@);
    }
    assert(starts_with_at(s, 0, head + l6 + ec) && starts_with_at(s, q9 + 16 + n, "]"@)) by {
        lemma_starts_with_concat(s, 0, head + l6 + ec, "]"@);
    }
    assert(starts_with_at(s, 0, head + l6) && starts_with_at(s, q9 + 16, ec)) by {
        lemma_starts_with_concat(s, 0, head + l6, ec);
    }
    assert(starts_with_at(s, 0, head) && starts_with_at(s, q9, l6)) by {
        lemma_starts_with_concat(s, 0, head, l6);
    }
    lemma_attachments_tail_at(s, q9, attachments);
    let tailf = seq![("attachments"@, TopVal::Objs(att_objs(attachments)))] + Seq::<
        (Seq<char>, TopVal),
    >::empty();
    lemma_parse_msg_head(s, author, body, sent_at, channel_id, tailf, s.len() as int);
    lemma_msg_pairs_a(s, author, body, sent_at, channel_id);
    assert(!is_json_ws('{')) by {
        assert('{' as u32 == 123);
    }
    lemma_skip_ws_no(s, 0);
    assert(skip_ws(s, s.len() as int) == s.len());
}

proof fn lemma_frame_of_encoded_message(
    author: Seq<char>,
    body: Seq<char>,
    sent_at: Seq<char>,
    channel_id: int,
    attachments: Seq<crate::protocol::AttachmentView>,
)
    requires
        -9223372036854775808 <= channel_id <= 9223372036854775807,
        atts_size_ok(attachments),
    ensures
        parse_frame(crate::codec::enc_message_payload(author, body, sent_at, channel_id, attachments))
            == Some(
            msg_head_fields(
                author,
                body,
                sent_at,
                channel_id,
                if attachments.len() == 0 {
                    Seq::<(Seq<char>, TopVal)>::empty()
                } else {
                    seq![("attachments"@, TopVal::Objs(att_objs(attachments)))] + Seq::<
                        (Seq<char>, TopVal),
                    >::empty()
                },
            ),
        ),
{
    if attachments.len() == 0 {
        lemma_frame_of_encoded_message_bare(author, body, sent_at, channel_id, attachments);
    } else {
        lemma_frame_of_encoded_message_full(author, body, sent_at, channel_id, attachments);
    }
}

/// Round trip of the wire codec (the message frame): decoding the encoding
/// of any chat message with any list of attachments yields a `Message`
/// payload with the same author, body, timestamp, channel and attachments,
/// in the same order, and no client identifier.
pub proof fn lemma_decode_of_encoded_message(
    author: Seq<char>,
    body: Seq<char>,
    sent_at: Seq<char>,
    channel_id: int,
    attachments: Seq<crate::protocol::AttachmentView>,
)
    requires
        -9223372036854775808 <= channel_id <= 9223372036854775807,
        atts_size_ok(attachments),
    ensures
        crate::codec::decode_payload_spec(
            crate::codec::enc_message_payload(author, body, sent_at, channel_id, attachments),
        ) == Some(
            crate::protocol::PayloadView::Message {
                author,
                body,
                sent_at,
                channel_id,
                client_id: None,
                attachments,
            },
        ),
{
    lemma_frame_of_encoded_message(author, body, sent_at, channel_id, attachments);
    lemma_msg_fields_payload(author, body, sent_at, channel_id, attachments);
}

/// The full round-trip law: for any chat message with zero or more
/// attachments, decoding the encoded frame yields a `Message` result whose
/// author, body, timestamp, channel and attachment list (order included) are
/// identical to what was encoded.
pub proof fn lemma_encode_decode_round_trip(
    author: Seq<char>,
    body: Seq<char>,
    sent_at: Seq<char>,
    channel_id: int,
    attachments: Seq<crate::protocol::AttachmentView>,
)
    requires
        -9223372036854775808 <= channel_id <= 9223372036854775807,
        atts_size_ok(attachments),
    ensures
        crate::codec::decode_inbound_spec(
            crate::codec::enc_message_payload(author, body, sent_at, channel_id, attachments),
        ) == Ok::<crate::protocol::InboundView, Seq<char>>(
            crate::protocol::InboundView::Message(
                crate::protocol::IncomingView {
                    message: crate::protocol::MessageView {
                        id: 0,
                        author,
                        body,
                        sent_at,
                        channel_id,
                    },
                    attachments,
                },
            ),
        ),
{
    lemma_decode_of_encoded_message(author, body, sent_at, channel_id, attachments);
}

} // verus!
