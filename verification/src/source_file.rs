//! A source file as diagnostics see it: its display name, its text, and
//! the lines and columns of byte offsets.

use crate::paths::{FsPath, FsPathV};
use crate::persist::opt_path;
use crate::source::Span;
use crate::text::{bytes_of, chars_of};
use vstd::prelude::*;
use vstd::string::*;

verus! {

/// A one-based line and column; columns count characters.
#[derive(Clone, Copy, Debug, PartialEq, Eq, Structural)]
pub struct LineCol {
    /// The line.
    pub line: u64,
    /// The column.
    pub column: u64,
}

/// A source file.
#[derive(Debug)]
pub struct SourceFile {
    /// Display name.
    pub name: String,
    /// Where the file is on disk, if it is.
    pub path: Option<FsPath>,
    /// The text.
    pub text: String,
}

/// Model of [`SourceFile`].
#[verifier::ext_equal]
pub struct SourceFileV {
    pub name: Seq<char>,
    pub path: Option<FsPathV>,
    pub text: Seq<char>,
}

/// The models of a sequence of files.
pub open spec fn source_files(v: Seq<SourceFile>) -> Seq<SourceFileV> {
    Seq::new(v.len(), |i: int| v[i]@)
}

/// Whether a byte starts a character.
pub open spec fn leads(b: u8) -> bool {
    b < 0x80 || b >= 0xc0
}

/// The number of characters that start among the first `n` bytes.
pub open spec fn chars_before(bytes: Seq<u8>, n: int) -> nat
    decreases n,
{
    if n <= 0 || n > bytes.len() {
        0
    } else if leads(bytes[n - 1]) {
        chars_before(bytes, n - 1) + 1
    } else {
        chars_before(bytes, n - 1)
    }
}

/// The number of line ends among the first `k` characters.
pub open spec fn lines_before(s: Seq<char>, k: int) -> nat
    decreases k,
{
    if k <= 0 || k > s.len() {
        0
    } else if s[k - 1] == '\n' {
        lines_before(s, k - 1) + 1
    } else {
        lines_before(s, k - 1)
    }
}

/// Where the line that holds the first `k` characters' end starts.
pub open spec fn line_begin(s: Seq<char>, k: int) -> int
    decreases k,
{
    if k <= 0 || k > s.len() {
        0
    } else if s[k - 1] == '\n' {
        k
    } else {
        line_begin(s, k - 1)
    }
}

/// The number of characters before a byte offset, which is clamped to
/// the text.
pub open spec fn char_offset(s: Seq<char>, offset: u32) -> int {
    let bytes = bytes_of(s);
    let at = if offset <= bytes.len() {
        offset as int
    } else {
        bytes.len() as int
    };
    let k = chars_before(bytes, at) as int;
    if k <= s.len() {
        k
    } else {
        s.len() as int
    }
}

/// The line and column of a byte offset.
pub open spec fn line_col_of(s: Seq<char>, offset: u32) -> LineCol {
    let k = char_offset(s, offset);
    LineCol {
        line: (lines_before(s, k) + 1) as u64,
        column: (k - line_begin(s, k) + 1) as u64,
    }
}

/// Where a line ends, from character `k` on: at its line end, or at the
/// end of the text.
pub open spec fn line_end(s: Seq<char>, k: int) -> int
    decreases s.len() - k,
{
    if k < 0 || k >= s.len() {
        s.len() as int
    } else if s[k] == '\n' {
        k
    } else {
        line_end(s, k + 1)
    }
}

/// Where the line with a number starts, searching from character `k` on
/// line `at`.
pub open spec fn line_start_from(s: Seq<char>, k: int, at: nat, line: nat) -> Option<int>
    decreases s.len() - k,
{
    if at == line {
        Some(k)
    } else if k < 0 || k >= s.len() {
        None
    } else if s[k] == '\n' {
        line_start_from(s, k + 1, at + 1, line)
    } else {
        line_start_from(s, k + 1, at, line)
    }
}

/// A line's text, without its line end.
pub open spec fn line_of(s: Seq<char>, line: nat) -> Option<Seq<char>> {
    match line_start_from(s, 0, 1, line) {
        None => None,
        Some(a) => {
            let b = line_end(s, a);
            if a < b && s[b - 1] == '\r' {
                Some(s.subrange(a, b - 1))
            } else {
                Some(s.subrange(a, b))
            }
        },
    }
}

proof fn lemma_line_passed(s: Seq<char>, k: int, at: nat, line: nat)
    requires
        at > line,
    ensures
        line_start_from(s, k, at, line) is None,
    decreases s.len() - k,
{
    if 0 <= k < s.len() {
        if s[k] == '\n' {
            lemma_line_passed(s, k + 1, at + 1, line);
        } else {
            lemma_line_passed(s, k + 1, at, line);
        }
    }
}

fn count_chars(s: &str, offset: u32) -> (r: usize)
    ensures
        r == char_offset(s@, offset),
        r <= s@.len(),
        r <= offset,
{
    let b = s.as_bytes();
    let n: usize = b.len();
    let at: usize = if offset as usize <= n {
        offset as usize
    } else {
        n
    };
    let mut i: usize = 0;
    let mut k: usize = 0;
    while i < at
        invariant
            i <= at <= b@.len(),
            at <= offset,
            k == chars_before(b@, i as int),
            k <= i,
        decreases at - i,
    {
        if b[i] < 0x80 || b[i] >= 0xc0 {
            k += 1;
        }
        i += 1;
    }
    let len: usize = s.unicode_len();
    if k <= len {
        k
    } else {
        len
    }
}

impl SourceFile {
    /// The model of this file.
    pub open spec fn view(&self) -> SourceFileV {
        SourceFileV { name: self.name@, path: opt_path(self.path), text: self.text@ }
    }

    /// The line and column of a byte offset.
    pub fn line_col(&self, offset: u32) -> (r: LineCol)
        ensures
            r == line_col_of(self@.text, offset),
            r.line >= 1,
            r.column >= 1,
    {
        let k = count_chars(self.text.as_str(), offset);
        let cs = chars_of(self.text.as_str());
        let mut i: usize = 0;
        let mut line: u64 = 0;
        let mut begin: usize = 0;
        while i < k
            invariant
                i <= k <= cs@.len(),
                cs@ == self.text@,
                line == lines_before(cs@, i as int),
                begin == line_begin(cs@, i as int),
                begin <= i,
                line <= i,
                k <= u32::MAX,
            decreases k - i,
        {
            if cs[i] == '\n' {
                line += 1;
                begin = i + 1;
            }
            i += 1;
        }
        LineCol { line: line + 1, column: (k - begin) as u64 + 1 }
    }

    /// The line and column of a span's start.
    pub fn start_line_col(&self, span: Span) -> (r: LineCol)
        ensures
            r == line_col_of(self@.text, span.start),
            r.line >= 1,
            r.column >= 1,
    {
        self.line_col(span.start)
    }

    /// A line's text, without its line end.
    pub fn line_text(&self, line: u64) -> (r: Option<String>)
        ensures
            crate::text::opt_text(r) == line_of(self@.text, line as nat),
    {
        let s = self.text.as_str();
        let cs = chars_of(s);
        let n: usize = cs.len();
        let mut k: usize = 0;
        let mut at: u64 = 1;
        while at != line
            invariant
                k <= n,
                n == cs@.len(),
                cs@ == self.text@,
                at <= k + 1,
                line_start_from(cs@, k as int, at as nat, line as nat) == line_start_from(
                    cs@,
                    0,
                    1,
                    line as nat,
                ),
            decreases n - k,
        {
            if k >= n {
                return None;
            }
            if cs[k] == '\n' {
                if at == u64::MAX {
                    proof {
                        lemma_line_passed(cs@, k + 1, at as nat + 1, line as nat);
                    }
                    return None;
                }
                at += 1;
            }
            k += 1;
        }
        let a = k;
        let mut b = k;
        while b < n && cs[b] != '\n'
            invariant
                a <= b <= n,
                n == cs@.len(),
                cs@ == self.text@,
                line_end(cs@, b as int) == line_end(cs@, a as int),
            decreases n - b,
        {
            b += 1;
        }
        if a < b && cs[b - 1] == '\r' {
            Some(s.substring_char(a, b - 1).to_owned())
        } else {
            Some(s.substring_char(a, b).to_owned())
        }
    }
}

} // verus!
