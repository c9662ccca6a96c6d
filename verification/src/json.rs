//! The structured wire grammar: one frame is a JSON object whose fields hold
//! strings, integers, booleans, null, or an array of flat objects (used for
//! attachment lists). Whitespace may appear between tokens, strings use the
//! standard JSON escapes (supplementary characters as surrogate pairs), and
//! integers must fit in a signed 64-bit value.
//!
//! The grammar is defined by spec-level parsing functions over `Seq<char>`;
//! the executable parser mirrors them exactly, and the codec builds frames
//! and proves the decode of every encoded frame.

use vstd::prelude::*;
use crate::text::{is_json_ws, is_digit, is_hex_digit, digit_of, hex_val, digits_val};

verus! {

// ---------- parsed shapes ----------

/// A scalar field value (spec level).
pub enum ScalarVal {
    Null,
    Bool(bool),
    Int(int),
    Str(Seq<char>),
}

/// A top-level field value: a scalar, or an array of flat objects each
/// holding only scalar fields (spec level).
pub enum TopVal {
    Scalar(ScalarVal),
    Objs(Seq<Seq<(Seq<char>, ScalarVal)>>),
}

/// A scalar field value (executable level).
pub enum JsonScalar {
    Null,
    Bool(bool),
    Int(i64),
    Str(Vec<char>),
}

impl View for JsonScalar {
    type V = ScalarVal;

    open spec fn view(&self) -> ScalarVal {
        match self {
            JsonScalar::Null => ScalarVal::Null,
            JsonScalar::Bool(b) => ScalarVal::Bool(*b),
            JsonScalar::Int(n) => ScalarVal::Int(*n as int),
            JsonScalar::Str(t) => ScalarVal::Str(t@),
        }
    }
}

pub open spec fn pairs_view(o: Seq<(Vec<char>, JsonScalar)>) -> Seq<(Seq<char>, ScalarVal)> {
    o.map_values(|p: (Vec<char>, JsonScalar)| (p.0@, p.1@))
}

pub open spec fn objs_view(v: Seq<Vec<(Vec<char>, JsonScalar)>>) -> Seq<
    Seq<(Seq<char>, ScalarVal)>,
> {
    v.map_values(|o: Vec<(Vec<char>, JsonScalar)>| pairs_view(o@))
}

/// A top-level field value (executable level).
pub enum JsonTopVal {
    Scalar(JsonScalar),
    Objs(Vec<Vec<(Vec<char>, JsonScalar)>>),
}

impl View for JsonTopVal {
    type V = TopVal;

    open spec fn view(&self) -> TopVal {
        match self {
            JsonTopVal::Scalar(v) => TopVal::Scalar(v@),
            JsonTopVal::Objs(objs) => TopVal::Objs(objs_view(objs@)),
        }
    }
}

pub open spec fn fields_view(v: Seq<(Vec<char>, JsonTopVal)>) -> Seq<(Seq<char>, TopVal)> {
    v.map_values(|p: (Vec<char>, JsonTopVal)| (p.0@, p.1@))
}

// ---------- whitespace and runs ----------

pub open spec fn skip_ws(s: Seq<char>, pos: int) -> int
    decreases s.len() - pos,
{
    if pos < s.len() && is_json_ws(s[pos]) {
        skip_ws(s, pos + 1)
    } else {
        pos
    }
}

pub proof fn lemma_skip_ws_props(s: Seq<char>, pos: int)
    requires
        0 <= pos <= s.len(),
    ensures
        pos <= skip_ws(s, pos) <= s.len(),
        skip_ws(s, pos) == s.len() || !is_json_ws(s[skip_ws(s, pos)]),
    decreases s.len() - pos,
{
    if pos < s.len() && is_json_ws(s[pos]) {
        lemma_skip_ws_props(s, pos + 1);
    }
}

pub open spec fn digit_run_end(s: Seq<char>, pos: int) -> int
    decreases s.len() - pos,
{
    if pos < s.len() && is_digit(s[pos]) {
        digit_run_end(s, pos + 1)
    } else {
        pos
    }
}

pub proof fn lemma_digit_run_props(s: Seq<char>, pos: int)
    requires
        0 <= pos <= s.len(),
    ensures
        pos <= digit_run_end(s, pos) <= s.len(),
        forall|i: int| pos <= i < digit_run_end(s, pos) ==> is_digit(s[i]),
        digit_run_end(s, pos) == s.len() || !is_digit(s[digit_run_end(s, pos)]),
    decreases s.len() - pos,
{
    if pos < s.len() && is_digit(s[pos]) {
        lemma_digit_run_props(s, pos + 1);
    }
}

// ---------- strings ----------

/// One escape sequence, at the position just after the backslash; yields the
/// character it denotes and the next position.
pub open spec fn unescape_at(s: Seq<char>, pos: int) -> Option<(char, int)> {
    if pos >= s.len() {
        None
    } else {
        let c = s[pos];
        if c == '"' {
            Some(('"', pos + 1))
        } else if c == '\\' {
            Some(('\\', pos + 1))
        } else if c == '/' {
            Some(('/', pos + 1))
        } else if c == 'b' {
            Some(('\u{8}', pos + 1))
        } else if c == 'f' {
            Some(('\u{c}', pos + 1))
        } else if c == 'n' {
            Some(('\n', pos + 1))
        } else if c == 'r' {
            Some(('\r', pos + 1))
        } else if c == 't' {
            Some(('\t', pos + 1))
        } else if c == 'u' {
            if pos + 5 <= s.len() && is_hex_digit(s[pos + 1]) && is_hex_digit(s[pos + 2])
                && is_hex_digit(s[pos + 3]) && is_hex_digit(s[pos + 4]) {
                let v = hex_val(s[pos + 1]) * 4096 + hex_val(s[pos + 2]) * 256 + hex_val(
                    s[pos + 3],
                ) * 16 + hex_val(s[pos + 4]);
                if v < 0xD800 || 0xE000 <= v {
                    Some(((v as u32) as char, pos + 5))
                } else if v < 0xDC00 {
                    // a high surrogate: it must be followed by a low-surrogate
                    // escape, and the pair denotes one supplementary character
                    if pos + 11 <= s.len() && s[pos + 5] == '\\' && s[pos + 6] == 'u'
                        && is_hex_digit(s[pos + 7]) && is_hex_digit(s[pos + 8]) && is_hex_digit(
                        s[pos + 9],
                    ) && is_hex_digit(s[pos + 10]) {
                        let w = hex_val(s[pos + 7]) * 4096 + hex_val(s[pos + 8]) * 256 + hex_val(
                            s[pos + 9],
                        ) * 16 + hex_val(s[pos + 10]);
                        if 0xDC00 <= w < 0xE000 {
                            let code = 0x10000 + (v - 0xD800) * 0x400 + (w - 0xDC00);
                            Some(((code as u32) as char, pos + 11))
                        } else {
                            None
                        }
                    } else {
                        None
                    }
                } else {
                    None
                }
            } else {
                None
            }
        } else {
            None
        }
    }
}

/// The body of a string, at the position just after the opening quote; yields
/// the unescaped contents and the position just after the closing quote.
pub open spec fn parse_string_body(s: Seq<char>, pos: int) -> Option<(Seq<char>, int)>
    decreases s.len() - pos,
{
    if pos >= s.len() {
        None
    } else {
        let c = s[pos];
        if c == '"' {
            Some((Seq::empty(), pos + 1))
        } else if c == '\\' {
            match unescape_at(s, pos + 1) {
                Some((u, p2)) => if pos < p2 <= s.len() {
                    match parse_string_body(s, p2) {
                        Some((t, p3)) => Some((seq![u] + t, p3)),
                        None => None,
                    }
                } else {
                    None
                },
                None => None,
            }
        } else if (c as u32) < 32 {
            None
        } else {
            match parse_string_body(s, pos + 1) {
                Some((t, p2)) => Some((seq![c] + t, p2)),
                None => None,
            }
        }
    }
}

pub proof fn lemma_parse_string_body_advances(s: Seq<char>, pos: int)
    requires
        0 <= pos <= s.len(),
    ensures
        match parse_string_body(s, pos) {
            Some((t, p)) => pos < p <= s.len(),
            None => true,
        },
    decreases s.len() - pos,
{
    if pos < s.len() {
        let c = s[pos];
        if c == '\\' {
            match unescape_at(s, pos + 1) {
                Some((u, p2)) => {
                    if pos < p2 <= s.len() {
                        lemma_parse_string_body_advances(s, p2);
                    }
                },
                None => {},
            }
        } else if c != '"' && c as u32 >= 32 {
            lemma_parse_string_body_advances(s, pos + 1);
        }
    }
}

// ---------- integers ----------

pub open spec fn parse_int_digits(s: Seq<char>, dpos: int, neg: bool) -> Option<(int, int)> {
    let dend = digit_run_end(s, dpos);
    let len = dend - dpos;
    if len < 1 || len > 19 {
        None
    } else if len > 1 && s[dpos] == '0' {
        None
    } else {
        let mag = digits_val(s.subrange(dpos, dend));
        if neg {
            if mag <= 9223372036854775808 {
                Some((-(mag as int), dend))
            } else {
                None
            }
        } else {
            if mag <= 9223372036854775807 {
                Some((mag as int, dend))
            } else {
                None
            }
        }
    }
}

pub open spec fn parse_int(s: Seq<char>, pos: int) -> Option<(int, int)> {
    if pos < s.len() && s[pos] == '-' {
        parse_int_digits(s, pos + 1, true)
    } else {
        parse_int_digits(s, pos, false)
    }
}

// ---------- scalars ----------

pub open spec fn starts_with_at(s: Seq<char>, pos: int, w: Seq<char>) -> bool {
    0 <= pos && pos + w.len() <= s.len() && s.subrange(pos, pos + w.len()) == w
}

pub open spec fn parse_scalar(s: Seq<char>, pos: int) -> Option<(ScalarVal, int)> {
    if pos >= s.len() {
        None
    } else {
        let c = s[pos];
        if c == '"' {
            match parse_string_body(s, pos + 1) {
                Some((t, p)) => Some((ScalarVal::Str(t), p)),
                None => None,
            }
        } else if c == '-' || is_digit(c) {
            match parse_int(s, pos) {
                Some((n, p)) => Some((ScalarVal::Int(n), p)),
                None => None,
            }
        } else if starts_with_at(s, pos, "null"@) {
            Some((ScalarVal::Null, pos + 4))
        } else if starts_with_at(s, pos, "true"@) {
            Some((ScalarVal::Bool(true), pos + 4))
        } else if starts_with_at(s, pos, "false"@) {
            Some((ScalarVal::Bool(false), pos + 5))
        } else {
            None
        }
    }
}

// ---------- flat objects ----------

/// One `"key": scalar` pair, with leading whitespace before the key and
/// around the colon.
pub open spec fn parse_pair(s: Seq<char>, pos: int) -> Option<((Seq<char>, ScalarVal), int)> {
    let p0 = skip_ws(s, pos);
    if p0 < s.len() && s[p0] == '"' {
        match parse_string_body(s, p0 + 1) {
            Some((k, p1)) => {
                let p2 = skip_ws(s, p1);
                if p2 < s.len() && s[p2] == ':' {
                    let p3 = skip_ws(s, p2 + 1);
                    match parse_scalar(s, p3) {
                        Some((v, p4)) => Some(((k, v), p4)),
                        None => None,
                    }
                } else {
                    None
                }
            },
            None => None,
        }
    } else {
        None
    }
}

/// After one pair of a flat object: either the closing brace or a comma and
/// the remaining pairs.
pub open spec fn parse_flat_tail(s: Seq<char>, pos: int) -> Option<
    (Seq<(Seq<char>, ScalarVal)>, int),
>
    decreases s.len() - pos,
{
    let p = skip_ws(s, pos);
    if p >= s.len() {
        None
    } else if s[p] == '}' {
        Some((Seq::empty(), p + 1))
    } else if s[p] == ',' {
        match parse_pair(s, p + 1) {
            Some(((k, v), p2)) => if pos < p2 <= s.len() {
                match parse_flat_tail(s, p2) {
                    Some((rest, p3)) => Some((seq![(k, v)] + rest, p3)),
                    None => None,
                }
            } else {
                None
            },
            None => None,
        }
    } else {
        None
    }
}

/// A whole flat object starting at its opening brace.
pub open spec fn parse_flat_obj(s: Seq<char>, pos: int) -> Option<
    (Seq<(Seq<char>, ScalarVal)>, int),
> {
    if pos < s.len() && s[pos] == '{' {
        let p = skip_ws(s, pos + 1);
        if p < s.len() && s[p] == '}' {
            Some((Seq::empty(), p + 1))
        } else {
            match parse_pair(s, pos + 1) {
                Some(((k, v), p1)) => match parse_flat_tail(s, p1) {
                    Some((rest, p2)) => Some((seq![(k, v)] + rest, p2)),
                    None => None,
                },
                None => None,
            }
        }
    } else {
        None
    }
}

// ---------- arrays of flat objects ----------

pub open spec fn parse_objs_tail(s: Seq<char>, pos: int) -> Option<
    (Seq<Seq<(Seq<char>, ScalarVal)>>, int),
>
    decreases s.len() - pos,
{
    let p = skip_ws(s, pos);
    if p >= s.len() {
        None
    } else if s[p] == ']' {
        Some((Seq::empty(), p + 1))
    } else if s[p] == ',' {
        let p1 = skip_ws(s, p + 1);
        match parse_flat_obj(s, p1) {
            Some((o, p2)) => if pos < p2 <= s.len() {
                match parse_objs_tail(s, p2) {
                    Some((rest, p3)) => Some((seq![o] + rest, p3)),
                    None => None,
                }
            } else {
                None
            },
            None => None,
        }
    } else {
        None
    }
}

pub open spec fn parse_arr(s: Seq<char>, pos: int) -> Option<
    (Seq<Seq<(Seq<char>, ScalarVal)>>, int),
> {
    if pos < s.len() && s[pos] == '[' {
        let p = skip_ws(s, pos + 1);
        if p < s.len() && s[p] == ']' {
            Some((Seq::empty(), p + 1))
        } else {
            match parse_flat_obj(s, p) {
                Some((o, p1)) => match parse_objs_tail(s, p1) {
                    Some((rest, p2)) => Some((seq![o] + rest, p2)),
                    None => None,
                },
                None => None,
            }
        }
    } else {
        None
    }
}

// ---------- top-level object ----------

pub open spec fn parse_top_val(s: Seq<char>, pos: int) -> Option<(TopVal, int)> {
    if pos < s.len() && s[pos] == '[' {
        match parse_arr(s, pos) {
            Some((objs, p)) => Some((TopVal::Objs(objs), p)),
            None => None,
        }
    } else {
        match parse_scalar(s, pos) {
            Some((v, p)) => Some((TopVal::Scalar(v), p)),
            None => None,
        }
    }
}

pub open spec fn parse_top_pair(s: Seq<char>, pos: int) -> Option<((Seq<char>, TopVal), int)> {
    let p0 = skip_ws(s, pos);
    if p0 < s.len() && s[p0] == '"' {
        match parse_string_body(s, p0 + 1) {
            Some((k, p1)) => {
                let p2 = skip_ws(s, p1);
                if p2 < s.len() && s[p2] == ':' {
                    let p3 = skip_ws(s, p2 + 1);
                    match parse_top_val(s, p3) {
                        Some((v, p4)) => Some(((k, v), p4)),
                        None => None,
                    }
                } else {
                    None
                }
            },
            None => None,
        }
    } else {
        None
    }
}

pub open spec fn parse_top_tail(s: Seq<char>, pos: int) -> Option<(Seq<(Seq<char>, TopVal)>, int)>
    decreases s.len() - pos,
{
    let p = skip_ws(s, pos);
    if p >= s.len() {
        None
    } else if s[p] == '}' {
        Some((Seq::empty(), p + 1))
    } else if s[p] == ',' {
        match parse_top_pair(s, p + 1) {
            Some(((k, v), p2)) => if pos < p2 <= s.len() {
                match parse_top_tail(s, p2) {
                    Some((rest, p3)) => Some((seq![(k, v)] + rest, p3)),
                    None => None,
                }
            } else {
                None
            },
            None => None,
        }
    } else {
        None
    }
}

pub open spec fn parse_top_obj(s: Seq<char>, pos: int) -> Option<(Seq<(Seq<char>, TopVal)>, int)> {
    if pos < s.len() && s[pos] == '{' {
        let p = skip_ws(s, pos + 1);
        if p < s.len() && s[p] == '}' {
            Some((Seq::empty(), p + 1))
        } else {
            match parse_top_pair(s, pos + 1) {
                Some(((k, v), p1)) => match parse_top_tail(s, p1) {
                    Some((rest, p2)) => Some((seq![(k, v)] + rest, p2)),
                    None => None,
                },
                None => None,
            }
        }
    } else {
        None
    }
}

/// A whole frame: one top-level object and nothing but whitespace around it.
pub open spec fn parse_frame(s: Seq<char>) -> Option<Seq<(Seq<char>, TopVal)>> {
    match parse_top_obj(s, skip_ws(s, 0)) {
        Some((fields, p)) => if skip_ws(s, p) == s.len() {
            Some(fields)
        } else {
            None
        },
        None => None,
    }
}

} // verus!

use crate::text::{char_is_digit, char_digit_of, char_is_hex_digit, char_hex_val, char_from_u32,
    pow10, all_digits, lemma_digits_val_bound, lemma_digits_val_snoc, lemma_pow10_19,
    lemma_pow10_mono};
use vstd::string::StrSliceExecFns;

verus! {

// ---------- executable parser ----------

pub fn x_skip_ws(s: &Vec<char>, pos: usize) -> (r: usize)
    requires
        pos <= s@.len(),
    ensures
        r as int == skip_ws(s@, pos as int),
        pos <= r <= s@.len(),
    decreases s@.len() - pos,
{
    if pos < s.len() {
        let c = s[pos];
        if c == ' ' || c == '\t' || c == '\n' || c == '\r' {
            x_skip_ws(s, pos + 1)
        } else {
            pos
        }
    } else {
        pos
    }
}

pub fn x_digit_run_end(s: &Vec<char>, pos: usize) -> (r: usize)
    requires
        pos <= s@.len(),
    ensures
        r as int == digit_run_end(s@, pos as int),
        pos <= r <= s@.len(),
    decreases s@.len() - pos,
{
    if pos < s.len() && char_is_digit(s[pos]) {
        x_digit_run_end(s, pos + 1)
    } else {
        pos
    }
}

pub fn x_unescape_at(s: &Vec<char>, pos: usize) -> (r: Option<(char, usize)>)
    requires
        pos <= s@.len(),
    ensures
        ({
            let sp = unescape_at(s@, pos as int);
            match r {
                Some((u, p)) => sp == Some((u, p as int)) && pos < p <= s@.len(),
                None => sp is None,
            }
        }),
{
    if pos >= s.len() {
        return None;
    }
    let c = s[pos];
    if c == '"' {
        Some(('"', pos + 1))
    } else if c == '\\' {
        Some(('\\', pos + 1))
    } else if c == '/' {
        Some(('/', pos + 1))
    } else if c == 'b' {
        Some(('\u{8}', pos + 1))
    } else if c == 'f' {
        Some(('\u{c}', pos + 1))
    } else if c == 'n' {
        Some(('\n', pos + 1))
    } else if c == 'r' {
        Some(('\r', pos + 1))
    } else if c == 't' {
        Some(('\t', pos + 1))
    } else if c == 'u' {
        if s.len() - pos >= 5 && char_is_hex_digit(s[pos + 1]) && char_is_hex_digit(s[pos + 2])
            && char_is_hex_digit(s[pos + 3]) && char_is_hex_digit(s[pos + 4]) {
            let v: u32 = char_hex_val(s[pos + 1]) * 4096 + char_hex_val(s[pos + 2]) * 256
                + char_hex_val(s[pos + 3]) * 16 + char_hex_val(s[pos + 4]);
            if v < 0xD800 || 0xE000 <= v {
                match char_from_u32(v) {
                    Some(u) => Some((u, pos + 5)),
                    None => {
                        proof {
                            assert(false);
                        }
                        None
                    },
                }
            } else if v < 0xDC00 {
                if s.len() - pos >= 11 && s[pos + 5] == '\\' && s[pos + 6] == 'u'
                    && char_is_hex_digit(s[pos + 7]) && char_is_hex_digit(s[pos + 8])
                    && char_is_hex_digit(s[pos + 9]) && char_is_hex_digit(s[pos + 10]) {
                    let w: u32 = char_hex_val(s[pos + 7]) * 4096 + char_hex_val(s[pos + 8]) * 256
                        + char_hex_val(s[pos + 9]) * 16 + char_hex_val(s[pos + 10]);
                    if 0xDC00 <= w && w < 0xE000 {
                        let code: u32 = 0x10000 + (v - 0xD800) * 0x400 + (w - 0xDC00);
                        match char_from_u32(code) {
                            Some(u) => Some((u, pos + 11)),
                            None => {
                                proof {
                                    assert(false);
                                }
                                None
                            },
                        }
                    } else {
                        None
                    }
                } else {
                    None
                }
            } else {
                None
            }
        } else {
            None
        }
    } else {
        None
    }
}

pub fn x_parse_string_body(s: &Vec<char>, pos: usize) -> (r: Option<(Vec<char>, usize)>)
    requires
        pos <= s@.len(),
    ensures
        ({
            let sp = parse_string_body(s@, pos as int);
            match r {
                Some((t, p)) => sp == Some((t@, p as int)) && pos < p <= s@.len(),
                None => sp is None,
            }
        }),
    decreases s@.len() - pos,
{
    if pos >= s.len() {
        return None;
    }
    let c = s[pos];
    if c == '"' {
        Some((Vec::new(), pos + 1))
    } else if c == '\\' {
        match x_unescape_at(s, pos + 1) {
            Some((u, p2)) => {
                match x_parse_string_body(s, p2) {
                    Some((t, p3)) => {
                        let mut out: Vec<char> = Vec::new();
                        out.push(u);
                        let mut tail = t;
                        out.append(&mut tail);
                        proof {
                            assert(out@ =~= seq![u] + t@);
                        }
                        Some((out, p3))
                    },
                    None => None,
                }
            },
            None => None,
        }
    } else if (c as u32) < 32 {
        None
    } else {
        match x_parse_string_body(s, pos + 1) {
            Some((t, p2)) => {
                let mut out: Vec<char> = Vec::new();
                out.push(c);
                let mut tail = t;
                out.append(&mut tail);
                proof {
                    assert(out@ =~= seq![c] + t@);
                }
                Some((out, p2))
            },
            None => None,
        }
    }
}

pub fn x_parse_int(s: &Vec<char>, pos: usize) -> (r: Option<(i64, usize)>)
    requires
        pos <= s@.len(),
    ensures
        ({
            let sp = parse_int(s@, pos as int);
            match r {
                Some((n, p)) => sp == Some((n as int, p as int)) && pos < p <= s@.len(),
                None => sp is None,
            }
        }),
{
    let neg = pos < s.len() && s[pos] == '-';
    let dpos = if neg {
        pos + 1
    } else {
        pos
    };
    let dend = x_digit_run_end(s, dpos);
    proof {
        lemma_digit_run_props(s@, dpos as int);
    }
    let len = dend - dpos;
    if len < 1 || len > 19 {
        return None;
    }
    if len > 1 && s[dpos] == '0' {
        return None;
    }
    let mut acc: u64 = 0;
    let mut i = dpos;
    proof {
        lemma_pow10_19();
        assert(s@.subrange(dpos as int, dpos as int) =~= Seq::<char>::empty());
    }
    while i < dend
        invariant
            dpos <= i <= dend <= s@.len(),
            dend - dpos <= 19,
            forall|j: int| dpos <= j < dend ==> is_digit(s@[j]),
            acc == digits_val(s@.subrange(dpos as int, i as int)),
            pow10(18) == 1000000000000000000,
            pow10(19) == 10000000000000000000,
        decreases dend - i,
    {
        proof {
            assert(all_digits(s@.subrange(dpos as int, i as int)));
            lemma_digits_val_bound(s@.subrange(dpos as int, i as int));
            lemma_pow10_mono((i - dpos) as nat, 18);
        }
        let d = char_digit_of(s[i]);
        acc = acc * 10 + (d as u64);
        i = i + 1;
        proof {
            lemma_digits_val_snoc(s@.subrange(dpos as int, i - 1 as int), s@[i - 1 as int]);
            assert(s@.subrange(dpos as int, i as int) =~= s@.subrange(
                dpos as int,
                i - 1 as int,
            ).push(s@[i - 1 as int]));
        }
    }
    if neg {
        if acc <= 9223372036854775808u64 {
            let n: i64 = if acc == 9223372036854775808u64 {
                i64::MIN
            } else {
                -(acc as i64)
            };
            Some((n, dend))
        } else {
            None
        }
    } else {
        if acc <= 9223372036854775807u64 {
            Some((acc as i64, dend))
        } else {
            None
        }
    }
}

pub fn check_word(s: &Vec<char>, pos: usize, w: &str) -> (r: bool)
    requires
        pos <= s@.len(),
    ensures
        r == starts_with_at(s@, pos as int, w@),
{
    let n = w.unicode_len();
    let slen = s.len();
    if n > slen - pos {
        return false;
    }
    let mut i: usize = 0;
    while i < n
        invariant
            n == w@.len(),
            slen == s@.len(),
            pos + n <= slen,
            i <= n,
            forall|j: int| 0 <= j < i ==> s@[pos + j] == w@[j],
        decreases n - i,
    {
        if s[pos + i] != w.get_char(i) {
            proof {
                assert(s@.subrange(pos as int, pos + n as int)[i as int] == s@[pos + i]);
            }
            return false;
        }
        i = i + 1;
    }
    proof {
        assert(s@.subrange(pos as int, pos + n as int) =~= w@);
    }
    true
}

pub fn x_parse_scalar(s: &Vec<char>, pos: usize) -> (r: Option<(JsonScalar, usize)>)
    requires
        pos <= s@.len(),
    ensures
        ({
            let sp = parse_scalar(s@, pos as int);
            match r {
                Some((v, p)) => sp == Some((v@, p as int)) && pos < p <= s@.len(),
                None => sp is None,
            }
        }),
{
    proof {
        reveal_strlit("null");
        reveal_strlit("true");
        reveal_strlit("false");
    }
    let slen = s.len();
    if pos >= slen {
        return None;
    }
    let c = s[pos];
    if c == '"' {
        match x_parse_string_body(s, pos + 1) {
            Some((t, p)) => Some((JsonScalar::Str(t), p)),
            None => None,
        }
    } else if c == '-' || char_is_digit(c) {
        match x_parse_int(s, pos) {
            Some((n, p)) => Some((JsonScalar::Int(n), p)),
            None => None,
        }
    } else if check_word(s, pos, "null") {
        Some((JsonScalar::Null, pos + 4))
    } else if check_word(s, pos, "true") {
        Some((JsonScalar::Bool(true), pos + 4))
    } else if check_word(s, pos, "false") {
        Some((JsonScalar::Bool(false), pos + 5))
    } else {
        None
    }
}

pub fn x_parse_pair(s: &Vec<char>, pos: usize) -> (r: Option<((Vec<char>, JsonScalar), usize)>)
    requires
        pos <= s@.len(),
    ensures
        ({
            let sp = parse_pair(s@, pos as int);
            match r {
                Some(((k, v), p)) => sp == Some(((k@, v@), p as int)) && pos < p <= s@.len(),
                None => sp is None,
            }
        }),
{
    let p0 = x_skip_ws(s, pos);
    if p0 < s.len() && s[p0] == '"' {
        match x_parse_string_body(s, p0 + 1) {
            Some((k, p1)) => {
                let p2 = x_skip_ws(s, p1);
                if p2 < s.len() && s[p2] == ':' {
                    let p3 = x_skip_ws(s, p2 + 1);
                    match x_parse_scalar(s, p3) {
                        Some((v, p4)) => Some(((k, v), p4)),
                        None => None,
                    }
                } else {
                    None
                }
            },
            None => None,
        }
    } else {
        None
    }
}

pub fn x_parse_flat_tail(s: &Vec<char>, pos: usize) -> (r: Option<
    (Vec<(Vec<char>, JsonScalar)>, usize),
>)
    requires
        pos <= s@.len(),
    ensures
        ({
            let sp = parse_flat_tail(s@, pos as int);
            match r {
                Some((o, p)) => sp == Some((pairs_view(o@), p as int)) && pos < p <= s@.len(),
                None => sp is None,
            }
        }),
    decreases s@.len() - pos,
{
    let p = x_skip_ws(s, pos);
    if p >= s.len() {
        None
    } else if s[p] == '}' {
        proof {
            assert(pairs_view(Seq::<(Vec<char>, JsonScalar)>::empty()) =~= Seq::<
                (Seq<char>, ScalarVal),
            >::empty());
        }
        Some((Vec::new(), p + 1))
    } else if s[p] == ',' {
        match x_parse_pair(s, p + 1) {
            Some(((k, v), p2)) => {
                match x_parse_flat_tail(s, p2) {
                    Some((rest, p3)) => {
                        let ghost gk = k@;
                        let ghost gv = v@;
                        let mut out: Vec<(Vec<char>, JsonScalar)> = Vec::new();
                        out.push((k, v));
                        let mut tail = rest;
                        out.append(&mut tail);
                        proof {
                            assert(pairs_view(out@) =~= seq![(gk, gv)] + pairs_view(rest@));
                        }
                        Some((out, p3))
                    },
                    None => None,
                }
            },
            None => None,
        }
    } else {
        None
    }
}

pub fn x_parse_flat_obj(s: &Vec<char>, pos: usize) -> (r: Option<
    (Vec<(Vec<char>, JsonScalar)>, usize),
>)
    requires
        pos <= s@.len(),
    ensures
        ({
            let sp = parse_flat_obj(s@, pos as int);
            match r {
                Some((o, p)) => sp == Some((pairs_view(o@), p as int)) && pos < p <= s@.len(),
                None => sp is None,
            }
        }),
{
    if pos < s.len() && s[pos] == '{' {
        let p = x_skip_ws(s, pos + 1);
        if p < s.len() && s[p] == '}' {
            proof {
                assert(pairs_view(Seq::<(Vec<char>, JsonScalar)>::empty()) =~= Seq::<
                    (Seq<char>, ScalarVal),
                >::empty());
            }
            Some((Vec::new(), p + 1))
        } else {
            match x_parse_pair(s, pos + 1) {
                Some(((k, v), p1)) => {
                    match x_parse_flat_tail(s, p1) {
                        Some((rest, p2)) => {
                            let ghost gk = k@;
                            let ghost gv = v@;
                            let mut out: Vec<(Vec<char>, JsonScalar)> = Vec::new();
                            out.push((k, v));
                            let mut tail = rest;
                            out.append(&mut tail);
                            proof {
                                assert(pairs_view(out@) =~= seq![(gk, gv)] + pairs_view(rest@));
                            }
                            Some((out, p2))
                        },
                        None => None,
                    }
                },
                None => None,
            }
        }
    } else {
        None
    }
}

pub fn x_parse_objs_tail(s: &Vec<char>, pos: usize) -> (r: Option<
    (Vec<Vec<(Vec<char>, JsonScalar)>>, usize),
>)
    requires
        pos <= s@.len(),
    ensures
        ({
            let sp = parse_objs_tail(s@, pos as int);
            match r {
                Some((o, p)) => sp == Some((objs_view(o@), p as int)) && pos < p <= s@.len(),
                None => sp is None,
            }
        }),
    decreases s@.len() - pos,
{
    let p = x_skip_ws(s, pos);
    if p >= s.len() {
        None
    } else if s[p] == ']' {
        proof {
            assert(objs_view(Seq::<Vec<(Vec<char>, JsonScalar)>>::empty()) =~= Seq::<
                Seq<(Seq<char>, ScalarVal)>,
            >::empty());
        }
        Some((Vec::new(), p + 1))
    } else if s[p] == ',' {
        let p1 = x_skip_ws(s, p + 1);
        match x_parse_flat_obj(s, p1) {
            Some((o, p2)) => {
                match x_parse_objs_tail(s, p2) {
                    Some((rest, p3)) => {
                        let ghost go = pairs_view(o@);
                        let mut out: Vec<Vec<(Vec<char>, JsonScalar)>> = Vec::new();
                        out.push(o);
                        let mut tail = rest;
                        out.append(&mut tail);
                        proof {
                            assert(objs_view(out@) =~= seq![go] + objs_view(rest@));
                        }
                        Some((out, p3))
                    },
                    None => None,
                }
            },
            None => None,
        }
    } else {
        None
    }
}

pub fn x_parse_arr(s: &Vec<char>, pos: usize) -> (r: Option<
    (Vec<Vec<(Vec<char>, JsonScalar)>>, usize),
>)
    requires
        pos <= s@.len(),
    ensures
        ({
            let sp = parse_arr(s@, pos as int);
            match r {
                Some((o, p)) => sp == Some((objs_view(o@), p as int)) && pos < p <= s@.len(),
                None => sp is None,
            }
        }),
{
    if pos < s.len() && s[pos] == '[' {
        let p = x_skip_ws(s, pos + 1);
        if p < s.len() && s[p] == ']' {
            proof {
                assert(objs_view(Seq::<Vec<(Vec<char>, JsonScalar)>>::empty()) =~= Seq::<
                    Seq<(Seq<char>, ScalarVal)>,
                >::empty());
            }
            Some((Vec::new(), p + 1))
        } else {
            match x_parse_flat_obj(s, p) {
                Some((o, p1)) => {
                    match x_parse_objs_tail(s, p1) {
                        Some((rest, p2)) => {
                            let ghost go = pairs_view(o@);
                            let mut out: Vec<Vec<(Vec<char>, JsonScalar)>> = Vec::new();
                            out.push(o);
                            let mut tail = rest;
                            out.append(&mut tail);
                            proof {
                                assert(objs_view(out@) =~= seq![go] + objs_view(rest@));
                            }
                            Some((out, p2))
                        },
                        None => None,
                    }
                },
                None => None,
            }
        }
    } else {
        None
    }
}

pub fn x_parse_top_val(s: &Vec<char>, pos: usize) -> (r: Option<(JsonTopVal, usize)>)
    requires
        pos <= s@.len(),
    ensures
        ({
            let sp = parse_top_val(s@, pos as int);
            match r {
                Some((v, p)) => sp == Some((v@, p as int)) && pos < p <= s@.len(),
                None => sp is None,
            }
        }),
{
    if pos < s.len() && s[pos] == '[' {
        match x_parse_arr(s, pos) {
            Some((objs, p)) => Some((JsonTopVal::Objs(objs), p)),
            None => None,
        }
    } else {
        match x_parse_scalar(s, pos) {
            Some((v, p)) => Some((JsonTopVal::Scalar(v), p)),
            None => None,
        }
    }
}

pub fn x_parse_top_pair(s: &Vec<char>, pos: usize) -> (r: Option<((Vec<char>, JsonTopVal), usize)>)
    requires
        pos <= s@.len(),
    ensures
        ({
            let sp = parse_top_pair(s@, pos as int);
            match r {
                Some(((k, v), p)) => sp == Some(((k@, v@), p as int)) && pos < p <= s@.len(),
                None => sp is None,
            }
        }),
{
    let p0 = x_skip_ws(s, pos);
    if p0 < s.len() && s[p0] == '"' {
        match x_parse_string_body(s, p0 + 1) {
            Some((k, p1)) => {
                let p2 = x_skip_ws(s, p1);
                if p2 < s.len() && s[p2] == ':' {
                    let p3 = x_skip_ws(s, p2 + 1);
                    match x_parse_top_val(s, p3) {
                        Some((v, p4)) => Some(((k, v), p4)),
                        None => None,
                    }
                } else {
                    None
                }
            },
            None => None,
        }
    } else {
        None
    }
}

pub fn x_parse_top_tail(s: &Vec<char>, pos: usize) -> (r: Option<
    (Vec<(Vec<char>, JsonTopVal)>, usize),
>)
    requires
        pos <= s@.len(),
    ensures
        ({
            let sp = parse_top_tail(s@, pos as int);
            match r {
                Some((o, p)) => sp == Some((fields_view(o@), p as int)) && pos < p <= s@.len(),
                None => sp is None,
            }
        }),
    decreases s@.len() - pos,
{
    let p = x_skip_ws(s, pos);
    if p >= s.len() {
        None
    } else if s[p] == '}' {
        proof {
            assert(fields_view(Seq::<(Vec<char>, JsonTopVal)>::empty()) =~= Seq::<
                (Seq<char>, TopVal),
            >::empty());
        }
        Some((Vec::new(), p + 1))
    } else if s[p] == ',' {
        match x_parse_top_pair(s, p + 1) {
            Some(((k, v), p2)) => {
                match x_parse_top_tail(s, p2) {
                    Some((rest, p3)) => {
                        let ghost gk = k@;
                        let ghost gv = v@;
                        let mut out: Vec<(Vec<char>, JsonTopVal)> = Vec::new();
                        out.push((k, v));
                        let mut tail = rest;
                        out.append(&mut tail);
                        proof {
                            assert(fields_view(out@) =~= seq![(gk, gv)] + fields_view(rest@));
                        }
                        Some((out, p3))
                    },
                    None => None,
                }
            },
            None => None,
        }
    } else {
        None
    }
}

pub fn x_parse_top_obj(s: &Vec<char>, pos: usize) -> (r: Option<
    (Vec<(Vec<char>, JsonTopVal)>, usize),
>)
    requires
        pos <= s@.len(),
    ensures
        ({
            let sp = parse_top_obj(s@, pos as int);
            match r {
                Some((o, p)) => sp == Some((fields_view(o@), p as int)) && pos < p <= s@.len(),
                None => sp is None,
            }
        }),
{
    if pos < s.len() && s[pos] == '{' {
        let p = x_skip_ws(s, pos + 1);
        if p < s.len() && s[p] == '}' {
            proof {
                assert(fields_view(Seq::<(Vec<char>, JsonTopVal)>::empty()) =~= Seq::<
                    (Seq<char>, TopVal),
                >::empty());
            }
            Some((Vec::new(), p + 1))
        } else {
            match x_parse_top_pair(s, pos + 1) {
                Some(((k, v), p1)) => {
                    match x_parse_top_tail(s, p1) {
                        Some((rest, p2)) => {
                            let ghost gk = k@;
                            let ghost gv = v@;
                            let mut out: Vec<(Vec<char>, JsonTopVal)> = Vec::new();
                            out.push((k, v));
                            let mut tail = rest;
                            out.append(&mut tail);
                            proof {
                                assert(fields_view(out@) =~= seq![(gk, gv)] + fields_view(rest@));
                            }
                            Some((out, p2))
                        },
                        None => None,
                    }
                },
                None => None,
            }
        }
    } else {
        None
    }
}

pub fn x_parse_frame(s: &Vec<char>) -> (r: Option<Vec<(Vec<char>, JsonTopVal)>>)
    ensures
        ({
            let sp = parse_frame(s@);
            match r {
                Some(fields) => sp == Some(fields_view(fields@)),
                None => sp is None,
            }
        }),
{
    let p0 = x_skip_ws(s, 0);
    match x_parse_top_obj(s, p0) {
        Some((fields, p)) => {
            let p1 = x_skip_ws(s, p);
            if p1 == s.len() {
                Some(fields)
            } else {
                None
            }
        },
        None => None,
    }
}

} // verus!
