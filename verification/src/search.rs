//! Escaping for the message search: a query becomes a safe substring
//! pattern for a LIKE-style match, with the escape character itself and the
//! two wildcards escaped.

use vstd::prelude::*;
use crate::text::{str_to_chars, chars_to_string};

verus! {

/// How one character appears in an escaped LIKE pattern.
pub open spec fn like_escape_char(c: char) -> Seq<char> {
    if c == '\\' {
        seq!['\\', '\\']
    } else if c == '%' {
        seq!['\\', '%']
    } else if c == '_' {
        seq!['\\', '_']
    } else {
        seq![c]
    }
}

pub open spec fn like_escape_seq(s: Seq<char>) -> Seq<char>
    decreases s.len(),
{
    if s.len() == 0 {
        Seq::empty()
    } else {
        like_escape_char(s[0]) + like_escape_seq(s.drop_first())
    }
}

proof fn lemma_like_escape_snoc(s: Seq<char>, c: char)
    ensures
        like_escape_seq(s.push(c)) == like_escape_seq(s) + like_escape_char(c),
    decreases s.len(),
{
    if s.len() == 0 {
        assert(s.push(c) =~= seq![c]);
        assert(s.push(c).drop_first() =~= Seq::<char>::empty());
        assert(like_escape_seq(Seq::<char>::empty()) =~= Seq::<char>::empty());
        assert(like_escape_seq(s.push(c)) =~= like_escape_seq(s) + like_escape_char(c));
    } else {
        assert(s.push(c).drop_first() =~= s.drop_first().push(c));
        lemma_like_escape_snoc(s.drop_first(), c);
        assert(s.push(c)[0] == s[0]);
        assert(like_escape_seq(s.push(c)) =~= like_escape_seq(s) + like_escape_char(c));
    }
}

fn push_like_escaped(out: &mut Vec<char>, t: &Vec<char>)
    ensures
        final(out)@ == old(out)@ + like_escape_seq(t@),
{
    let mut i: usize = 0;
    proof {
        assert(t@.take(0) =~= Seq::<char>::empty());
        assert(out@ =~= old(out)@ + like_escape_seq(t@.take(0)));
    }
    while i < t.len()
        invariant
            i <= t@.len(),
            out@ == old(out)@ + like_escape_seq(t@.take(i as int)),
        decreases t@.len() - i,
    {
        let c = t[i];
        if c == '\\' {
            out.push('\\');
            out.push('\\');
        } else if c == '%' {
            out.push('\\');
            out.push('%');
        } else if c == '_' {
            out.push('\\');
            out.push('_');
        } else {
            out.push(c);
        }
        i = i + 1;
        proof {
            assert(t@.take(i as int) =~= t@.take(i - 1 as int).push(t@[i - 1 as int]));
            lemma_like_escape_snoc(t@.take(i - 1 as int), t@[i - 1 as int]);
            assert(out@ =~= old(out)@ + like_escape_seq(t@.take(i as int)));
        }
    }
    proof {
        assert(t@.take(t@.len() as int) =~= t@);
    }
}

/// Escapes a search query for use inside a LIKE pattern.
pub fn escape_like(input: &str) -> (r: String)
    ensures
        r@ == like_escape_seq(input@),
{
    let chars = str_to_chars(input);
    let mut out: Vec<char> = Vec::new();
    push_like_escaped(&mut out, &chars);
    chars_to_string(&out)
}

/// The full substring pattern for a query: the escaped query between two
/// wildcards.
pub fn search_like_pattern(query: &str) -> (r: String)
    ensures
        r@ == seq!['%'] + like_escape_seq(query@) + seq!['%'],
{
    let chars = str_to_chars(query);
    let mut out: Vec<char> = Vec::new();
    out.push('%');
    push_like_escaped(&mut out, &chars);
    out.push('%');
    proof {
        assert(out@ =~= seq!['%'] + like_escape_seq(query@) + seq!['%']);
    }
    chars_to_string(&out)
}

} // verus!
