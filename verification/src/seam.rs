//! Byte-level reading of source text around an edit site: white space
//! runs, comments, line endings, and the bytes a span covers.
//!
//! Spans count bytes, so everything here is stated over the UTF-8 bytes
//! of the text.

use crate::paths::{join, joined};
use crate::source::Span;
use crate::text::{bytes_of, chars_of, slice, slice_spec, texts, trim, trimmed};
use vstd::prelude::*;
use vstd::string::*;
use vstd::utf8::*;

verus! {

/// Whether a byte is ASCII white space: space, tab, line feed, form
/// feed, or carriage return.
pub open spec fn is_space(b: u8) -> bool {
    b == 0x20 || b == 0x9 || b == 0xa || b == 0xc || b == 0xd
}

fn space(b: u8) -> (r: bool)
    ensures
        r == is_space(b),
{
    b == 0x20 || b == 0x9 || b == 0xa || b == 0xc || b == 0xd
}

/// Whether byte `p` exists and is `x`.
pub open spec fn byte_at(b: Seq<u8>, p: int, x: u8) -> bool {
    0 <= p < b.len() && b[p] == x
}

/// Whether bytes `p` and `p + 1` exist and are `x` and `y`.
pub open spec fn pair_at(b: Seq<u8>, p: int, x: u8, y: u8) -> bool {
    byte_at(b, p, x) && byte_at(b, p + 1, y)
}

/// Whether byte `p` exists and is `x`.
pub fn has_byte(b: &[u8], p: usize, x: u8) -> (r: bool)
    ensures
        r == byte_at(b@, p as int, x),
{
    p < b.len() && b[p] == x
}

/// Whether bytes `p` and `p + 1` exist and are `x` and `y`.
pub fn has_pair(b: &[u8], p: usize, x: u8, y: u8) -> (r: bool)
    ensures
        r == pair_at(b@, p as int, x, y),
{
    let n: usize = b.len();
    p < n && n - p > 1 && b[p] == x && b[p + 1] == y
}

/// The first position from `p` on that holds no white space.
pub open spec fn skip_spaces(b: Seq<u8>, p: int) -> int
    decreases b.len() - p,
{
    if 0 <= p < b.len() && is_space(b[p]) {
        skip_spaces(b, p + 1)
    } else {
        p
    }
}

/// The first position from `p` on that holds no white space.
pub fn past_spaces(b: &[u8], p: usize) -> (r: usize)
    ensures
        r == skip_spaces(b@, p as int),
        p <= r,
        r <= b@.len() || r == p,
{
    let mut i: usize = p;
    while i < b.len() && space(b[i])
        invariant
            p <= i,
            i <= b@.len() || i == p,
            skip_spaces(b@, i as int) == skip_spaces(b@, p as int),
        decreases b@.len() - i,
    {
        i += 1;
    }
    i
}

/// The start of the white space run that ends before `p`.
pub open spec fn back_spaces(b: Seq<u8>, p: int) -> int
    decreases p,
{
    if 0 < p <= b.len() && is_space(b[p - 1]) {
        back_spaces(b, p - 1)
    } else {
        p
    }
}

/// The start of the white space run that ends before `p`.
pub fn before_spaces(b: &[u8], p: usize) -> (r: usize)
    ensures
        r == back_spaces(b@, p as int),
        r <= p,
{
    let mut i: usize = p;
    while i > 0 && i <= b.len() && space(b[i - 1])
        invariant
            i <= p,
            back_spaces(b@, i as int) == back_spaces(b@, p as int),
        decreases i,
    {
        i -= 1;
    }
    i
}

/// The start of the run of spaces and tabs that ends before `p`.
pub open spec fn back_blanks(b: Seq<u8>, p: int) -> int
    decreases p,
{
    if 0 < p <= b.len() && (b[p - 1] == 0x20 || b[p - 1] == 0x9) {
        back_blanks(b, p - 1)
    } else {
        p
    }
}

/// The start of the run of spaces and tabs that ends before `p`.
pub fn before_blanks(b: &[u8], p: usize) -> (r: usize)
    ensures
        r == back_blanks(b@, p as int),
        r <= p,
{
    let mut i: usize = p;
    while i > 0 && i <= b.len() && (b[i - 1] == 0x20 || b[i - 1] == 0x9)
        invariant
            i <= p,
            back_blanks(b@, i as int) == back_blanks(b@, p as int),
        decreases i,
    {
        i -= 1;
    }
    i
}

/// The first position from `p` on that holds `x`.
pub open spec fn first_byte(b: Seq<u8>, p: int, x: u8) -> Option<int>
    decreases b.len() - p,
{
    if p < 0 || p >= b.len() {
        None
    } else if b[p] == x {
        Some(p)
    } else {
        first_byte(b, p + 1, x)
    }
}

/// The first position from `p` on that holds `x`.
pub fn next_byte(b: &[u8], p: usize, x: u8) -> (r: Option<usize>)
    ensures
        match r {
            Some(i) => first_byte(b@, p as int, x) == Some(i as int) && p <= i < b@.len(),
            None => first_byte(b@, p as int, x) is None,
        },
{
    let mut i: usize = p;
    while i < b.len()
        invariant
            p <= i,
            first_byte(b@, i as int, x) == first_byte(b@, p as int, x),
        decreases b@.len() - i,
    {
        if b[i] == x {
            return Some(i);
        }
        i += 1;
    }
    None
}

/// Whether the pair `x`, `y` occurs in bytes `from..to`.
pub open spec fn pair_in(b: Seq<u8>, from: int, to: int, x: u8, y: u8) -> bool {
    exists|i: int| from <= i && i + 1 < to && #[trigger] pair_at(b, i, x, y)
}

/// Whether the pair `x`, `y` occurs in bytes `from..to`.
pub fn contains_pair(b: &[u8], from: usize, to: usize, x: u8, y: u8) -> (r: bool)
    ensures
        r == pair_in(b@, from as int, to as int, x, y),
{
    let mut i: usize = from;
    while i < to && to - i > 1
        invariant
            from <= i,
            forall|j: int| from <= j < i ==> !#[trigger] pair_at(b@, j, x, y),
        decreases to - i,
    {
        if has_pair(b, i, x, y) {
            return true;
        }
        i += 1;
    }
    false
}

// ---------- lines ----------

/// The newline convention of a text: `"\r\n"` as soon as one occurs.
pub open spec fn ending_of(src: Seq<char>) -> Seq<char> {
    if pair_in(bytes_of(src), 0, bytes_of(src).len() as int, 0xd, 0xa) {
        "\r\n"@
    } else {
        "\n"@
    }
}

/// The file's newline convention — first `"\r\n"` wins, else `"\n"`.
pub fn line_ending(src: &str) -> (r: &'static str)
    ensures
        r@ == ending_of(src@),
{
    let b = src.as_bytes();
    if contains_pair(b, 0, b.len(), 0xd, 0xa) {
        "\r\n"
    } else {
        "\n"
    }
}

/// A span together with the one newline that follows it, if any.
pub open spec fn with_newline(b: Seq<u8>, span: Span) -> Span {
    if pair_at(b, span.end as int, 0xd, 0xa) {
        Span { start: span.start, end: (span.end + 2) as u32 }
    } else if byte_at(b, span.end as int, 0xa) {
        Span { start: span.start, end: (span.end + 1) as u32 }
    } else {
        span
    }
}

/// Swallows one newline after `span`, so that a removal leaves no stray
/// blank line.
pub fn swallow_newline(src: &str, span: Span) -> (r: Span)
    requires
        bytes_of(src@).len() <= u32::MAX,
    ensures
        r == with_newline(bytes_of(src@), span),
{
    let b = src.as_bytes();
    let end: usize = span.end as usize;
    if has_pair(b, end, 0xd, 0xa) {
        Span::new(span.start, span.end + 2)
    } else if has_byte(b, end, 0xa) {
        Span::new(span.start, span.end + 1)
    } else {
        span
    }
}

// ---------- spans ----------

/// The text `span` covers, empty where it covers none.
pub open spec fn covered_text(src: Seq<char>, span: Span) -> Seq<char> {
    match slice_spec(src, span.start as int, span.end as int) {
        Some(t) => t,
        None => Seq::empty(),
    }
}

/// The bytes `span` covers in `src`.
pub fn covered(src: &str, span: Span) -> (r: String)
    ensures
        r@ == covered_text(src@, span),
{
    match slice(src, span.start as usize, span.end as usize) {
        Some(t) => t,
        None => {
            let e = String::new();
            proof {
                assert(e@ =~= Seq::empty());
            }
            e
        },
    }
}

/// Whether a comment starts at `p`.
pub open spec fn comment_at(b: Seq<u8>, p: int) -> bool {
    pair_at(b, p, 0x2f, 0x2f) || pair_at(b, p, 0x2f, 0x2a)
}

/// Whether a comment starts at `p`.
pub fn starts_comment(b: &[u8], p: usize) -> (r: bool)
    ensures
        r == comment_at(b@, p as int),
{
    has_pair(b, p, 0x2f, 0x2f) || has_pair(b, p, 0x2f, 0x2a)
}

/// The span a type edit replaces: `span` minus leading white space;
/// `None` when a comment sits in that seam.
pub open spec fn type_site(b: Seq<u8>, span: Span) -> Option<Span> {
    let start = skip_spaces(b, span.start as int);
    if start <= b.len() && is_char_boundary(b, start) && !comment_at(b, start) {
        Some(Span { start: start as u32, end: span.end })
    } else {
        None
    }
}

/// The span a `ty` payload actually replaces: `span` minus leading
/// whitespace. `None` when a `//`/`/*` comment sits in the seam —
/// splicing there would silently drop it, so the caller refuses.
pub fn ty_edit_span(src: &str, span: Span) -> (r: Option<Span>)
    requires
        bytes_of(src@).len() <= u32::MAX,
    ensures
        r == type_site(bytes_of(src@), span),
{
    let b = src.as_bytes();
    let start: usize = past_spaces(b, span.start as usize);
    if start > b.len() || !src.is_char_boundary(start) || starts_comment(b, start) {
        return None;
    }
    Some(Span::new(start as u32, span.end))
}

// ---------- finding a byte outside comments ----------

/// The end of the line comment at `p`: its line feed, or `lim`.
pub open spec fn line_comment_end(b: Seq<u8>, p: int, lim: int) -> int
    decreases lim - p,
{
    if 0 <= p < lim && p < b.len() && b[p] != 0xa {
        line_comment_end(b, p + 1, lim)
    } else {
        p
    }
}

/// The start of the `*/` that closes a block comment whose text starts
/// at `p`, or the last position before `lim`.
pub open spec fn block_comment_end(b: Seq<u8>, p: int, lim: int) -> int
    decreases lim - p,
{
    if 0 <= p && p + 1 < lim && !pair_at(b, p, 0x2a, 0x2f) {
        block_comment_end(b, p + 1, lim)
    } else {
        p
    }
}

/// The smaller of two positions.
pub open spec fn least(a: int, b: int) -> int {
    if a <= b {
        a
    } else {
        b
    }
}

/// The first `x` in bytes `p..lim` that stands in no comment.
pub open spec fn byte_outside(b: Seq<u8>, p: int, lim: int, x: u8) -> Option<int>
    decreases lim - p,
{
    if p < 0 || p >= lim || lim > b.len() {
        None
    } else if b[p] == x {
        Some(p)
    } else if pair_at(b, p, 0x2f, 0x2f) {
        let q = line_comment_end(b, p + 1, lim);
        if p < q <= lim {
            byte_outside(b, q, lim, x)
        } else {
            None
        }
    } else if pair_at(b, p, 0x2f, 0x2a) {
        let q = least(block_comment_end(b, p + 2, lim) + 2, lim);
        if p < q <= lim {
            byte_outside(b, q, lim, x)
        } else {
            None
        }
    } else {
        byte_outside(b, p + 1, lim, x)
    }
}

fn past_line_comment(b: &[u8], p: usize, lim: usize) -> (r: usize)
    requires
        p <= lim <= b@.len(),
    ensures
        r == line_comment_end(b@, p as int, lim as int),
        p <= r <= lim,
{
    let mut i: usize = p;
    while i < lim && b[i] != 0xa
        invariant
            p <= i <= lim <= b@.len(),
            line_comment_end(b@, i as int, lim as int) == line_comment_end(
                b@,
                p as int,
                lim as int,
            ),
        decreases lim - i,
    {
        i += 1;
    }
    i
}

fn past_block_comment(b: &[u8], p: usize, lim: usize) -> (r: usize)
    requires
        lim <= b@.len(),
    ensures
        r == block_comment_end(b@, p as int, lim as int),
        p <= r,
{
    let mut i: usize = p;
    while i < lim && lim - i > 1 && !has_pair(b, i, 0x2a, 0x2f)
        invariant
            p <= i,
            lim <= b@.len(),
            block_comment_end(b@, i as int, lim as int) == block_comment_end(
                b@,
                p as int,
                lim as int,
            ),
        decreases lim - i,
    {
        i += 1;
    }
    i
}

/// The offset of `byte` in `src[from..to]`, skipping `//` and
/// `/* */` comments so a `// {` or `/* { */` in a seam is never
/// mistaken for the real brace.
pub fn find_byte(src: &str, from: usize, to: usize, byte: u8) -> (r: Option<usize>)
    ensures
        ({
            let b = bytes_of(src@);
            let want = byte_outside(b, from as int, least(to as int, b.len() as int), byte);
            match r {
                Some(p) => want == Some(p as int) && from <= p < b.len(),
                None => want is None,
            }
        }),
{
    let b = src.as_bytes();
    let lim: usize = if to < b.len() {
        to
    } else {
        b.len()
    };
    let mut p: usize = from;
    while p < lim
        invariant
            from <= p,
            b@ == bytes_of(src@),
            lim == least(to as int, b@.len() as int),
            byte_outside(b@, p as int, lim as int, byte) == byte_outside(
                b@,
                from as int,
                lim as int,
                byte,
            ),
        decreases lim - p,
    {
        if b[p] == byte {
            return Some(p);
        }
        if has_pair(b, p, 0x2f, 0x2f) {
            p = past_line_comment(b, p + 1, lim);
        } else if has_pair(b, p, 0x2f, 0x2a) {
            let q: usize = past_block_comment(b, p + 2, lim);
            p = if q >= lim || lim - q <= 2 {
                lim
            } else {
                q + 2
            };
        } else {
            p += 1;
        }
    }
    None
}

// ---------- paths as written ----------

/// The first position from `p` on where `::` stands.
pub open spec fn colons_at(s: Seq<char>, p: int) -> Option<int>
    decreases s.len() - p,
{
    if p < 0 || p + 1 >= s.len() {
        None
    } else if s[p] == ':' && s[p + 1] == ':' {
        Some(p)
    } else {
        colons_at(s, p + 1)
    }
}

/// The parts of a text between its `::`, scanned from `p`; the part
/// that is read started at `start`.
pub open spec fn path_parts(s: Seq<char>, start: int, p: int) -> Seq<Seq<char>>
    decreases s.len() - p,
{
    if p < 0 || p >= s.len() {
        seq![s.subrange(start, s.len() as int)]
    } else if p + 1 < s.len() && s[p] == ':' && s[p + 1] == ':' {
        seq![s.subrange(start, p)] + path_parts(s, p + 2, p + 2)
    } else {
        path_parts(s, start, p + 1)
    }
}

/// The texts of a sequence, each without surrounding white space.
pub open spec fn all_trimmed(v: Seq<Seq<char>>) -> Seq<Seq<char>> {
    Seq::new(v.len(), |i: int| trimmed(v[i]))
}

/// A path in canonical `a::b` form.
pub open spec fn canonical_path(path: Seq<char>) -> Seq<char> {
    joined(all_trimmed(path_parts(path, 0, 0)), "::"@)
}

/// `path` in canonical `a::b` form — segments trimmed and rejoined.
pub fn norm_path(path: &str) -> (r: String)
    ensures
        r@ == canonical_path(path@),
{
    let n: usize = path.unicode_len();
    let cs = chars_of(path);
    let mut out: Vec<String> = Vec::new();
    let mut start: usize = 0;
    let mut p: usize = 0;
    let ghost want = all_trimmed(path_parts(path@, 0, 0));
    proof {
        assert(texts(out@) =~= Seq::empty());
        assert(texts(out@) + all_trimmed(path_parts(path@, 0, 0)) =~= want);
    }
    while p < n
        invariant
            n == cs@.len(),
            cs@ == path@,
            start <= p <= n,
            texts(out@) + all_trimmed(path_parts(path@, start as int, p as int)) == want,
        decreases n - p,
    {
        if n - p > 1 && cs[p] == ':' && cs[p + 1] == ':' {
            let part = trim(path.substring_char(start, p));
            let ghost done = texts(out@);
            let ghost rest = path_parts(path@, p + 2, p + 2);
            let ghost here = path@.subrange(start as int, p as int);
            out.push(part);
            proof {
                assert(texts(out@) =~= done.push(trimmed(here)));
                assert(done + all_trimmed(seq![here] + rest) =~= done.push(trimmed(here))
                    + all_trimmed(rest));
            }
            start = p + 2;
            p += 2;
        } else {
            p += 1;
        }
    }
    let last = trim(path.substring_char(start, n));
    let ghost done = texts(out@);
    let ghost here = path@.subrange(start as int, n as int);
    out.push(last);
    proof {
        assert(texts(out@) =~= done.push(trimmed(here)));
        assert(done + all_trimmed(seq![here]) =~= done.push(trimmed(here)));
    }
    join(&out, "::")
}

/// The two texts around the first `::`.
pub open spec fn split_path(s: Seq<char>) -> Option<(Seq<char>, Seq<char>)> {
    match colons_at(s, 0) {
        Some(p) => Some((s.take(p), s.skip(p + 2))),
        None => None,
    }
}

/// Splits a text at its first `::`.
pub fn split_once(s: &str) -> (r: Option<(&str, &str)>)
    ensures
        match r {
            Some((a, b)) => split_path(s@) == Some((a@, b@)),
            None => split_path(s@) is None,
        },
{
    let n: usize = s.unicode_len();
    let cs = chars_of(s);
    let mut p: usize = 0;
    while p < n && n - p > 1
        invariant
            n == cs@.len(),
            cs@ == s@,
            p <= n,
            colons_at(s@, p as int) == colons_at(s@, 0),
        decreases n - p,
    {
        if cs[p] == ':' && cs[p + 1] == ':' {
            let a = s.substring_char(0, p);
            let b = s.substring_char(p + 2, n);
            proof {
                assert(a@ =~= s@.take(p as int));
                assert(b@ =~= s@.skip(p + 2));
            }
            return Some((a, b));
        }
        p += 1;
    }
    None
}

} // verus!
