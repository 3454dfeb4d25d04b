//! Where a byte of a text stands: on the line after as many line ends,
//! in the column after as many characters of that line.

use crate::source_file::{
    char_offset, chars_before, leads, line_begin, line_col_of, line_end, line_of, line_start_from,
    lines_before,
};
use crate::text::{bytes_of, lemma_bytes_concat};
use vstd::prelude::*;
use vstd::utf8::*;

verus! {

/// How many line ends a text holds.
pub open spec fn newlines(s: Seq<char>) -> nat
    decreases s.len(),
{
    if s.len() == 0 {
        0
    } else {
        newlines(s.drop_last()) + if s.last() == '\n' {
            1nat
        } else {
            0
        }
    }
}

/// A text holds no line end.
pub open spec fn one_line(s: Seq<char>) -> bool {
    forall|i: int| 0 <= i < s.len() ==> #[trigger] s[i] != '\n'
}

// ---------- bytes and characters ----------

proof fn lemma_chars_concat(x: Seq<u8>, y: Seq<u8>, n: int)
    requires
        0 <= n <= x.len() + y.len(),
    ensures
        n <= x.len() ==> chars_before(x + y, n) == chars_before(x, n),
        n > x.len() ==> chars_before(x + y, n) == chars_before(x, x.len() as int) + chars_before(
            y,
            n - x.len(),
        ),
    decreases n,
{
    if n > 0 {
        lemma_chars_concat(x, y, n - 1);
        if n <= x.len() {
            assert((x + y)[n - 1] == x[n - 1]);
        } else {
            assert((x + y)[n - 1] == y[n - 1 - x.len()]);
            assert(chars_before(y, 0) == 0);
            assert(chars_before(y, n - x.len()) == chars_before(y, n - 1 - x.len()) + if leads(
                y[n - 1 - x.len()],
            ) {
                1nat
            } else {
                0
            });
        }
    }
}

proof fn lemma_one_char(b: Seq<u8>)
    requires
        1 <= b.len() <= 4,
        leads(b[0]),
        forall|i: int| 1 <= i < b.len() ==> !leads(#[trigger] b[i]),
    ensures
        chars_before(b, b.len() as int) == 1,
{
    reveal_with_fuel(chars_before, 5);
}

proof fn lemma_char_count(s: Seq<char>)
    ensures
        chars_before(bytes_of(s), bytes_of(s).len() as int) == s.len(),
    decreases s.len(),
{
    let b = bytes_of(s);
    if s.len() > 0 {
        encode_utf8_first_scalar(s);
        let n = length_of_first_scalar(b);
        let head = b.subrange(0, n);
        let rest = bytes_of(s.drop_first());
        assert(head =~= encode_scalar(s[0] as u32));
        assert(b =~= head + rest);
        lemma_one_char(head);
        lemma_char_count(s.drop_first());
        lemma_chars_concat(head, rest, b.len() as int);
    }
}

/// The offset behind a part of a text, counted in bytes, is the place
/// behind that part, counted in characters.
pub proof fn law_offset_counts_characters(a: Seq<char>, b: Seq<char>)
    requires
        bytes_of(a).len() <= u32::MAX,
    ensures
        char_offset(a + b, bytes_of(a).len() as u32) == a.len(),
{
    lemma_bytes_concat(a, b);
    lemma_char_count(a);
    let x = bytes_of(a);
    let y = bytes_of(b);
    lemma_chars_concat(x, y, x.len() as int);
}

// ---------- lines and columns ----------

proof fn lemma_lines(s: Seq<char>, k: int)
    requires
        0 <= k <= s.len(),
    ensures
        lines_before(s, k) == newlines(s.take(k)),
        0 <= line_begin(s, k) <= k,
        line_begin(s, k) > 0 ==> s[line_begin(s, k) - 1] == '\n',
        forall|i: int| line_begin(s, k) <= i < k ==> #[trigger] s[i] != '\n',
    decreases k,
{
    if k > 0 {
        lemma_lines(s, k - 1);
        assert(s.take(k).drop_last() =~= s.take(k - 1));
        assert(s.take(k).last() == s[k - 1]);
    } else {
        assert(s.take(0) =~= Seq::empty());
    }
}

/// The byte behind `a` stands on the line after as many line ends as `a`
/// holds; and where `a` ends in a last line `tail`, in the column behind
/// that many characters. Lines and columns count from one, and columns
/// count characters, not bytes.
pub proof fn law_line_and_column(head: Seq<char>, tail: Seq<char>, b: Seq<char>)
    requires
        head.len() == 0 || head.last() == '\n',
        one_line(tail),
        bytes_of(head + tail).len() <= u32::MAX,
        head.len() + tail.len() < u32::MAX,
    ensures
        ({
            let at = line_col_of(head + tail + b, bytes_of(head + tail).len() as u32);
            at.line == newlines(head) + 1 && at.column == tail.len() + 1
        }),
{
    let a = head + tail;
    let s = a + b;
    law_offset_counts_characters(a, b);
    let k = a.len() as int;
    lemma_lines(s, k);
    assert(s.take(k) =~= a);
    lemma_newlines_concat(head, tail);
    lemma_no_newlines(tail);
    lemma_newlines_bound(a);
    let p = line_begin(s, k);
    if p < head.len() {
        assert(s[head.len() - 1] == head.last());
        assert(false);
    }
    if p > head.len() {
        assert(s[p - 1] == tail[p - 1 - head.len()]);
        assert(false);
    }
}

proof fn lemma_newlines_concat(a: Seq<char>, b: Seq<char>)
    ensures
        newlines(a + b) == newlines(a) + newlines(b),
    decreases b.len(),
{
    if b.len() == 0 {
        assert(a + b =~= a);
    } else {
        assert((a + b).drop_last() =~= a + b.drop_last());
        assert((a + b).last() == b.last());
        lemma_newlines_concat(a, b.drop_last());
    }
}

proof fn lemma_no_newlines(s: Seq<char>)
    requires
        one_line(s),
    ensures
        newlines(s) == 0,
    decreases s.len(),
{
    if s.len() > 0 {
        assert(s[s.len() - 1] != '\n');
        assert forall|i: int| 0 <= i < s.drop_last().len() implies #[trigger] s.drop_last()[i]
            != '\n' by {
            assert(s.drop_last()[i] == s[i]);
        }
        lemma_no_newlines(s.drop_last());
    }
}

proof fn lemma_newlines_bound(s: Seq<char>)
    ensures
        newlines(s) <= s.len(),
    decreases s.len(),
{
    if s.len() > 0 {
        lemma_newlines_bound(s.drop_last());
    }
}

// ---------- the text of a line ----------

proof fn lemma_line_start(s: Seq<char>, k: int, at: nat, head: int, line: nat)
    requires
        0 <= k <= head <= s.len(),
        k < head ==> s[head - 1] == '\n',
        line == at + newlines(s.subrange(k, head)),
    ensures
        line_start_from(s, k, at, line) == Some(head),
    decreases head - k,
{
    if k < head {
        let part = s.subrange(k, head);
        lemma_newlines_first(part);
        assert(part.skip(1) =~= s.subrange(k + 1, head));
        assert(part[0] == s[k]);
        lemma_newlines_concat(part.drop_last(), seq!['\n']);
        assert(part.drop_last() + seq!['\n'] =~= part);
        let u = seq!['\n'];
        assert(u.drop_last() =~= Seq::<char>::empty());
        assert(u.last() == '\n');
        reveal_with_fuel(newlines, 2);
        assert(newlines(part) >= 1);
        if s[k] == '\n' {
            lemma_line_start(s, k + 1, at + 1, head, line);
        } else {
            assert(k + 1 < head || s[head - 1] == '\n');
            lemma_line_start(s, k + 1, at, head, line);
        }
    } else {
        assert(s.subrange(k, head) =~= Seq::<char>::empty());
    }
}

proof fn lemma_newlines_first(s: Seq<char>)
    requires
        s.len() > 0,
    ensures
        newlines(s) == newlines(s.skip(1)) + if s[0] == '\n' {
            1nat
        } else {
            0
        },
{
    let u = seq![s[0]];
    assert(s =~= u + s.skip(1));
    lemma_newlines_concat(u, s.skip(1));
    assert(u.drop_last() =~= Seq::<char>::empty());
    assert(u.last() == s[0]);
    reveal_with_fuel(newlines, 2);
}

proof fn lemma_line_end(s: Seq<char>, a: int, b: int)
    requires
        0 <= a <= b <= s.len(),
        forall|i: int| a <= i < b ==> #[trigger] s[i] != '\n',
        b < s.len() ==> s[b] == '\n',
    ensures
        line_end(s, a) == b,
    decreases b - a,
{
    if a < b {
        assert(s[a] != '\n');
        lemma_line_end(s, a + 1, b);
    }
}

/// A line's text is what stands between two line ends, without the `\r`
/// of a `\r\n`.
pub proof fn law_line_text(head: Seq<char>, text: Seq<char>, rest: Seq<char>)
    requires
        head.len() == 0 || head.last() == '\n',
        one_line(text),
        rest.len() == 0 || rest[0] == '\n',
    ensures
        line_of(head + text + rest, newlines(head) + 1) == Some(
            if text.len() > 0 && text.last() == '\r' {
                text.drop_last()
            } else {
                text
            },
        ),
{
    let s = head + text + rest;
    let a = head.len() as int;
    let b = a + text.len();
    assert(s.subrange(0, a) =~= head);
    if a > 0 {
        assert(s[a - 1] == head.last());
    }
    lemma_line_start(s, 0, 1, a, newlines(head) + 1);
    assert forall|i: int| a <= i < b implies #[trigger] s[i] != '\n' by {
        assert(s[i] == text[i - a]);
    }
    if b < s.len() {
        assert(s[b] == rest[0]);
    }
    lemma_line_end(s, a, b);
    assert(s.subrange(a, b) =~= text);
    if a < b {
        assert(s[b - 1] == text.last());
        assert(s.subrange(a, b - 1) =~= text.drop_last());
    }
}

} // verus!
