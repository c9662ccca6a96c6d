//! Attachment bookkeeping: the pending-attachment record the composer holds,
//! conversions to and from the wire attachment record, deriving a display
//! name and a kind tag from a slash-separated path, and human-readable byte
//! counts.

use vstd::prelude::*;
use vstd::string::StrSliceExecFns;
use crate::text::{str_to_chars, vec_slice, chars_to_string, dec_digits, digit_char};
use crate::protocol::{RealtimeAttachment, AttachmentView, lower_seq, lower_char};

verus! {

/// An attachment picked in the composer but not yet sent or stored.
#[derive(Clone, Debug, PartialEq, Eq)]
pub struct PendingAttachment {
    pub file_path: String,
    pub file_name: String,
    pub file_size: i64,
    pub kind: String,
}

pub struct PendingAttachmentView {
    pub file_path: Seq<char>,
    pub file_name: Seq<char>,
    pub file_size: int,
    pub kind: Seq<char>,
}

impl View for PendingAttachment {
    type V = PendingAttachmentView;

    open spec fn view(&self) -> PendingAttachmentView {
        PendingAttachmentView {
            file_path: self.file_path@,
            file_name: self.file_name@,
            file_size: self.file_size as int,
            kind: self.kind@,
        }
    }
}

pub open spec fn pending_view(v: Seq<PendingAttachment>) -> Seq<PendingAttachmentView> {
    v.map_values(|a: PendingAttachment| a@)
}

// ---------- file names from slash-separated paths ----------

/// The last position of `c` in `s`, or -1 when it does not occur.
pub open spec fn last_pos_of(s: Seq<char>, c: char) -> int
    decreases s.len(),
{
    if s.len() == 0 {
        -1
    } else if s.last() == c {
        s.len() - 1
    } else {
        last_pos_of(s.drop_last(), c)
    }
}

proof fn lemma_last_pos_of(s: Seq<char>, c: char)
    ensures
        -1 <= last_pos_of(s, c) < s.len(),
        last_pos_of(s, c) >= 0 ==> s[last_pos_of(s, c)] == c,
        forall|i: int| last_pos_of(s, c) < i < s.len() ==> s[i] != c,
    decreases s.len(),
{
    if s.len() > 0 && s.last() != c {
        lemma_last_pos_of(s.drop_last(), c);
        assert(forall|i: int| 0 <= i < s.len() - 1 ==> s[i] == s.drop_last()[i]);
    }
}

fn x_last_pos_of(v: &Vec<char>, c: char) -> (r: Option<usize>)
    ensures
        match r {
            Some(i) => i < v@.len() && i as int == last_pos_of(v@, c),
            None => last_pos_of(v@, c) == -1,
        },
{
    let mut i = v.len();
    while i > 0
        invariant
            i <= v@.len(),
            forall|j: int| i <= j < v@.len() ==> v@[j] != c,
        decreases i,
    {
        i = i - 1;
        if v[i] == c {
            proof {
                lemma_last_pos_of(v@, c);
            }
            return Some(i);
        }
    }
    proof {
        lemma_last_pos_of(v@, c);
    }
    None
}

/// The start of the slash-separated component that ends just before `end`:
/// the position right after the previous slash, or zero.
pub open spec fn comp_start(s: Seq<char>, end: int) -> int
    decreases end,
{
    if end <= 0 {
        0
    } else if s[end - 1] == '/' {
        end
    } else {
        comp_start(s, end - 1)
    }
}

proof fn lemma_comp_start_range(s: Seq<char>, end: int)
    requires
        0 < end <= s.len(),
        s[end - 1] != '/',
    ensures
        0 <= comp_start(s, end) < end,
        comp_start(s, end) > 0 ==> s[comp_start(s, end) - 1] == '/',
        forall|i: int| comp_start(s, end) <= i < end ==> s[i] != '/',
    decreases end,
{
    if end == 1 {
        assert(comp_start(s, 0) == 0);
    } else if s[end - 2] == '/' {
        assert(comp_start(s, end - 1) == end - 1);
    } else {
        lemma_comp_start_range(s, end - 1);
    }
}

fn x_comp_start(v: &Vec<char>, end: usize) -> (r: usize)
    requires
        end <= v@.len(),
    ensures
        r as int == comp_start(v@, end as int),
        r <= end,
    decreases end,
{
    if end == 0 {
        0
    } else if v[end - 1] == '/' {
        end
    } else {
        x_comp_start(v, end - 1)
    }
}

/// The region of the display-name component of a path, scanning back from
/// `end`: trailing slashes and `.` components are skipped, as the platform's
/// path handling skips them; there is no region when nothing but those
/// remains, or when the final real component is the parent marker `..`.
pub open spec fn file_name_region(s: Seq<char>, end: int) -> Option<(int, int)>
    decreases end,
{
    if end <= 0 {
        None
    } else if s[end - 1] == '/' {
        file_name_region(s, end - 1)
    } else {
        let start = comp_start(s, end);
        if 0 <= start < end {
            if end - start == 1 && s[start] == '.' {
                if start == 0 {
                    None
                } else {
                    file_name_region(s, start - 1)
                }
            } else if end - start == 2 && s[start] == '.' && s[start + 1] == '.' {
                None
            } else {
                Some((start, end))
            }
        } else {
            None
        }
    }
}

/// The display name of a slash-separated path: its final real component —
/// ignoring trailing slashes and `.` components — or the whole path when
/// there is no such component or it is `..`.
pub open spec fn file_name_of(path: Seq<char>) -> Seq<char> {
    match file_name_region(path, path.len() as int) {
        Some((a, b)) => path.subrange(a, b),
        None => path,
    }
}

fn x_file_name_region(v: &Vec<char>, end: usize) -> (r: Option<(usize, usize)>)
    requires
        end <= v@.len(),
    ensures
        match r {
            Some((a, b)) => file_name_region(v@, end as int) == Some((a as int, b as int)) && a
                < b <= v@.len(),
            None => file_name_region(v@, end as int) is None,
        },
    decreases end,
{
    if end == 0 {
        None
    } else if v[end - 1] == '/' {
        x_file_name_region(v, end - 1)
    } else {
        let start = x_comp_start(v, end);
        proof {
            lemma_comp_start_range(v@, end as int);
        }
        if end - start == 1 && v[start] == '.' {
            if start == 0 {
                None
            } else {
                x_file_name_region(v, start - 1)
            }
        } else if end - start == 2 && v[start] == '.' && v[start + 1] == '.' {
            None
        } else {
            Some((start, end))
        }
    }
}

/// Derives a display name from a slash-separated path.
pub fn file_name_from_path(path: &str) -> (r: String)
    ensures
        r@ == file_name_of(path@),
{
    let chars = str_to_chars(path);
    let n = chars.len();
    match x_file_name_region(&chars, n) {
        Some((a, b)) => chars_to_string(&vec_slice(&chars, a, b)),
        None => chars_to_string(&chars),
    }
}

// ---------- attachment kinds ----------

/// The extension of a path's display name: what follows the name's last dot,
/// provided the dot is neither the name's first character nor missing; empty
/// when the path has no display-name component at all.
pub open spec fn extension_of(path: Seq<char>) -> Seq<char> {
    match file_name_region(path, path.len() as int) {
        None => Seq::empty(),
        Some((a, b)) => {
            let name = path.subrange(a, b);
            let d = last_pos_of(name, '.');
            if d >= 1 {
                name.subrange(d + 1, name.len() as int)
            } else {
                Seq::empty()
            }
        },
    }
}

pub open spec fn is_image_ext(e: Seq<char>) -> bool {
    e == "png"@ || e == "jpg"@ || e == "jpeg"@ || e == "gif"@ || e == "webp"@
}

pub open spec fn is_document_ext(e: Seq<char>) -> bool {
    e == "pdf"@ || e == "txt"@ || e == "md"@ || e == "doc"@ || e == "docx"@ || e == "rtf"@
}

/// The kind tag for a path, by its (case-folded) extension.
pub open spec fn kind_of_path(path: Seq<char>) -> Seq<char> {
    let e = lower_seq(extension_of(path));
    if is_image_ext(e) {
        "image"@
    } else if is_document_ext(e) {
        "document"@
    } else {
        "file"@
    }
}

// compares a char region against an all-lowercase ASCII pattern, ignoring case
fn region_eq_ignore_case(v: &Vec<char>, a: usize, b: usize, pattern: &str) -> (r: bool)
    requires
        a <= b <= v@.len(),
    ensures
        r == (lower_seq(v@.subrange(a as int, b as int)) == pattern@),
{
    let pn = pattern.unicode_len();
    if b - a != pn {
        proof {
            assert(lower_seq(v@.subrange(a as int, b as int)).len() == b - a);
        }
        return false;
    }
    let mut i: usize = 0;
    while i < pn
        invariant
            pn == pattern@.len(),
            a + pn <= v@.len(),
            b == a + pn,
            i <= pn,
            forall|j: int| 0 <= j < i ==> lower_char(v@[a + j]) == pattern@[j],
        decreases pn - i,
    {
        let c = v[a + i] as u32;
        let lowered: u32 = if 65 <= c && c <= 90 {
            c + 32
        } else {
            c
        };
        if lowered != pattern.get_char(i) as u32 {
            proof {
                assert(lower_char(v@[a + i]) as u32 == lowered);
                assert(lower_seq(v@.subrange(a as int, b as int))[i as int] == lower_char(
                    v@[a + i],
                ));
            }
            return false;
        }
        proof {
            assert(lower_char(v@[a + i]) as u32 == lowered);
            assert(lower_char(v@[a + i]) == pattern@[i as int]);
        }
        i = i + 1;
    }
    proof {
        assert(lower_seq(v@.subrange(a as int, b as int)) =~= pattern@);
    }
    true
}

/// Classifies a path as an image, a document, or a plain file by its
/// extension, ignoring case.
pub fn detect_attachment_kind(path: &str) -> (r: &'static str)
    ensures
        r@ == kind_of_path(path@),
{
    proof {
        reveal_strlit("png");
        reveal_strlit("jpg");
        reveal_strlit("jpeg");
        reveal_strlit("gif");
        reveal_strlit("webp");
        reveal_strlit("pdf");
        reveal_strlit("txt");
        reveal_strlit("md");
        reveal_strlit("doc");
        reveal_strlit("docx");
        reveal_strlit("rtf");
    }
    let chars = str_to_chars(path);
    let n = chars.len();
    let (a, b): (usize, usize) = match x_file_name_region(&chars, n) {
        Some((a, b)) => (a, b),
        None => {
            proof {
                assert(extension_of(path@) =~= Seq::<char>::empty());
                assert(lower_seq(extension_of(path@)).len() == 0);
            }
            return "file";
        },
    };
    let name = vec_slice(&chars, a, b);
    proof {
        assert(name@ == file_name_of(path@));
    }
    // the extension region within the name
    let (ea, eb): (usize, usize) = match x_last_pos_of(&name, '.') {
        Some(d) => {
            if d >= 1 {
                (d + 1, name.len())
            } else {
                (0, 0)
            }
        },
        None => (0, 0),
    };
    proof {
        assert(name@.subrange(ea as int, eb as int) =~= extension_of(path@));
    }
    if region_eq_ignore_case(&name, ea, eb, "png") || region_eq_ignore_case(&name, ea, eb, "jpg")
        || region_eq_ignore_case(&name, ea, eb, "jpeg") || region_eq_ignore_case(
        &name,
        ea,
        eb,
        "gif",
    ) || region_eq_ignore_case(&name, ea, eb, "webp") {
        "image"
    } else if region_eq_ignore_case(&name, ea, eb, "pdf") || region_eq_ignore_case(
        &name,
        ea,
        eb,
        "txt",
    ) || region_eq_ignore_case(&name, ea, eb, "md") || region_eq_ignore_case(&name, ea, eb, "doc")
        || region_eq_ignore_case(&name, ea, eb, "docx") || region_eq_ignore_case(
        &name,
        ea,
        eb,
        "rtf",
    ) {
        "document"
    } else {
        "file"
    }
}

// ---------- conversions between pending and wire attachments ----------

/// Converts composer attachments to wire attachments, field for field.
pub fn pending_to_realtime_attachments(attachments: &Vec<PendingAttachment>) -> (r: Vec<
    RealtimeAttachment,
>)
    ensures
        r@.len() == attachments@.len(),
        forall|i: int|
            0 <= i < attachments@.len() ==> #[trigger] r@[i]@ == (AttachmentView {
                file_path: attachments@[i]@.file_path,
                file_name: attachments@[i]@.file_name,
                file_size: attachments@[i]@.file_size,
                kind: attachments@[i]@.kind,
            }),
{
    let mut r: Vec<RealtimeAttachment> = Vec::new();
    let mut i: usize = 0;
    while i < attachments.len()
        invariant
            i <= attachments@.len(),
            r@.len() == i,
            forall|j: int|
                0 <= j < i ==> #[trigger] r@[j]@ == (AttachmentView {
                    file_path: attachments@[j]@.file_path,
                    file_name: attachments@[j]@.file_name,
                    file_size: attachments@[j]@.file_size,
                    kind: attachments@[j]@.kind,
                }),
        decreases attachments@.len() - i,
    {
        let a = &attachments[i];
        r.push(
            RealtimeAttachment {
                file_path: a.file_path.clone(),
                file_name: a.file_name.clone(),
                file_size: a.file_size,
                kind: a.kind.clone(),
            },
        );
        i = i + 1;
    }
    r
}

/// Converts wire attachments back to composer attachments; an empty file
/// name is reconstructed from the path.
pub fn realtime_to_pending_attachments(attachments: &Vec<RealtimeAttachment>) -> (r: Vec<
    PendingAttachment,
>)
    ensures
        r@.len() == attachments@.len(),
        forall|i: int|
            0 <= i < attachments@.len() ==> #[trigger] r@[i]@ == (PendingAttachmentView {
                file_path: attachments@[i]@.file_path,
                file_name: if attachments@[i]@.file_name.len() == 0 {
                    file_name_of(attachments@[i]@.file_path)
                } else {
                    attachments@[i]@.file_name
                },
                file_size: attachments@[i]@.file_size,
                kind: attachments@[i]@.kind,
            }),
{
    let mut r: Vec<PendingAttachment> = Vec::new();
    let mut i: usize = 0;
    while i < attachments.len()
        invariant
            i <= attachments@.len(),
            r@.len() == i,
            forall|j: int|
                0 <= j < i ==> #[trigger] r@[j]@ == (PendingAttachmentView {
                    file_path: attachments@[j]@.file_path,
                    file_name: if attachments@[j]@.file_name.len() == 0 {
                        file_name_of(attachments@[j]@.file_path)
                    } else {
                        attachments@[j]@.file_name
                    },
                    file_size: attachments@[j]@.file_size,
                    kind: attachments@[j]@.kind,
                }),
        decreases attachments@.len() - i,
    {
        let a = &attachments[i];
        let file_name = if a.file_name.unicode_len() == 0 {
            file_name_from_path(a.file_path.as_str())
        } else {
            a.file_name.clone()
        };
        r.push(
            PendingAttachment {
                file_path: a.file_path.clone(),
                file_name,
                file_size: a.file_size,
                kind: a.kind.clone(),
            },
        );
        i = i + 1;
    }
    r
}

// ---------- human-readable sizes ----------

/// The display form of a byte count: the count scaled by the largest of
/// B, KB, MB, GB (factors of 1024) that keeps it at least one, shown with
/// exactly one decimal digit, rounding half away from zero. Negative counts
/// stay in bytes.
pub open spec fn format_bytes_chars(size: int) -> Seq<char> {
    if size < 0 {
        seq!['-'] + fmt_scaled((-size) as nat, 1) + "B"@
    } else if size >= 0x40000000 {
        fmt_scaled(size as nat, 0x40000000) + "GB"@
    } else if size >= 0x100000 {
        fmt_scaled(size as nat, 0x100000) + "MB"@
    } else if size >= 1024 {
        fmt_scaled(size as nat, 1024) + "KB"@
    } else {
        fmt_scaled(size as nat, 1) + "B"@
    }
}

/// `m / d` with one decimal digit, rounding half away from zero.
pub open spec fn fmt_scaled(m: nat, d: nat) -> Seq<char> {
    let tenths = (m * 10 / d) + (if 2 * ((m * 10) % d) >= d {
        1nat
    } else {
        0nat
    });
    dec_digits(tenths / 10) + seq!['.', digit_char(tenths % 10)]
}

fn push_scaled(out: &mut Vec<char>, m: u64, d: u64)
    requires
        1 <= d <= 0x40000000,
    ensures
        final(out)@ == old(out)@ + fmt_scaled(m as nat, d as nat),
{
    let wide: u128 = (m as u128) * 10;
    let q: u128 = wide / (d as u128);
    let rem: u128 = wide % (d as u128);
    proof {
        assert(q <= wide) by {
            vstd::arithmetic::div_mod::lemma_div_is_ordered_by_denominator(
                wide as int,
                1,
                d as int,
            );
        }
        assert(rem < d as u128);
    }
    let tenths: u128 = if 2 * rem >= d as u128 {
        q + 1
    } else {
        q
    };
    crate::text::push_u128_dec(out, tenths / 10);
    out.push('.');
    out.push(crate::text::digit_to_char((tenths % 10) as u64));
    proof {
        assert(tenths as nat == (m as nat) * 10 / (d as nat) + (if 2 * (((m as nat) * 10) % (
        d as nat)) >= d as nat {
            1nat
        } else {
            0nat
        }));
        assert(out@ =~= old(out)@ + fmt_scaled(m as nat, d as nat));
    }
}

/// Formats a byte count for display.
pub fn format_bytes(size: i64) -> (r: String)
    ensures
        r@ == format_bytes_chars(size as int),
{
    let mut out: Vec<char> = Vec::new();
    if size < 0 {
        out.push('-');
        let m: u64 = ((-(size + 1)) as u64) + 1;
        assert(m == -(size as int));
        push_scaled(&mut out, m, 1);
        crate::text::push_str_chars(&mut out, "B");
        proof {
            assert(out@ =~= format_bytes_chars(size as int));
        }
    } else if size >= 0x40000000 {
        push_scaled(&mut out, size as u64, 0x40000000);
        crate::text::push_str_chars(&mut out, "GB");
        proof {
            assert(out@ =~= format_bytes_chars(size as int));
        }
    } else if size >= 0x100000 {
        push_scaled(&mut out, size as u64, 0x100000);
        crate::text::push_str_chars(&mut out, "MB");
        proof {
            assert(out@ =~= format_bytes_chars(size as int));
        }
    } else if size >= 1024 {
        push_scaled(&mut out, size as u64, 1024);
        crate::text::push_str_chars(&mut out, "KB");
        proof {
            assert(out@ =~= format_bytes_chars(size as int));
        }
    } else {
        push_scaled(&mut out, size as u64, 1);
        crate::text::push_str_chars(&mut out, "B");
        proof {
            assert(out@ =~= format_bytes_chars(size as int));
        }
    }
    chars_to_string(&out)
}

} // verus!
