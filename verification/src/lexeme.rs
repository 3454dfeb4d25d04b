//! The values behind literal tokens: digit separators, integers,
//! floating-point spellings, and string escapes.

use crate::text::chars_of;
use vstd::prelude::*;
use vstd::string::*;

verus! {

/// A literal's text without its `_` separators.
pub open spec fn cleaned(s: Seq<char>) -> Seq<char>
    decreases s.len(),
{
    if s.len() == 0 {
        Seq::empty()
    } else if s.last() == '_' {
        cleaned(s.drop_last())
    } else {
        cleaned(s.drop_last()).push(s.last())
    }
}

/// A literal's text without its `_` separators.
pub fn without_separators(s: &str) -> (r: String)
    ensures
        r@ == cleaned(s@),
{
    let cs = chars_of(s);
    let mut out = String::new();
    let mut i: usize = 0;
    proof {
        assert(s@.take(0) =~= Seq::empty());
        assert(out@ =~= Seq::empty());
    }
    while i < cs.len()
        invariant
            i <= cs@.len(),
            cs@ == s@,
            out@ == cleaned(s@.take(i as int)),
        decreases cs@.len() - i,
    {
        proof {
            assert(s@.take(i + 1).drop_last() =~= s@.take(i as int));
            assert(s@.subrange(i as int, i + 1) =~= seq![s@[i as int]]);
        }
        if cs[i] != '_' {
            let ghost before = out@;
            out.append(s.substring_char(i, i + 1));
            proof {
                assert(out@ =~= before.push(s@[i as int]));
            }
        }
        i += 1;
    }
    proof {
        assert(s@.take(s@.len() as int) =~= s@);
    }
    out
}

/// Whether a character is a decimal digit.
pub open spec fn is_digit(c: char) -> bool {
    '0' <= c && c <= '9'
}

fn digit_char(c: char) -> (r: bool)
    ensures
        r == is_digit(c),
{
    '0' <= c && c <= '9'
}

/// The number that a digit sequence writes.
pub open spec fn nat_of(s: Seq<char>) -> nat
    decreases s.len(),
{
    if s.len() == 0 {
        0
    } else {
        nat_of(s.drop_last()) * 10 + ((s.last() as u32) - 48) as nat
    }
}

/// Whether a text is one or more digits.
pub open spec fn all_digits(s: Seq<char>) -> bool {
    s.len() > 0 && forall|i: int| 0 <= i < s.len() ==> is_digit(#[trigger] s[i])
}

/// Where the digits of a number start: behind one sign.
pub open spec fn sign_len(s: Seq<char>) -> int {
    if s.len() > 0 && (s[0] == '-' || s[0] == '+') {
        1
    } else {
        0
    }
}

/// The integer a text writes, when it is an optional sign and digits
/// whose value is an `i128`.
pub open spec fn int_value(s: Seq<char>) -> Option<i128> {
    let digits = s.skip(sign_len(s));
    let value = if s.len() > 0 && s[0] == '-' {
        -nat_of(digits)
    } else {
        nat_of(digits) as int
    };
    if all_digits(digits) && i128::MIN <= value <= i128::MAX {
        Some(value as i128)
    } else {
        None
    }
}

proof fn lemma_nat_grows(s: Seq<char>, n: int)
    requires
        0 <= n <= s.len(),
        forall|i: int| 0 <= i < s.len() ==> is_digit(#[trigger] s[i]),
    ensures
        nat_of(s.take(n)) <= nat_of(s),
    decreases s.len() - n,
{
    if n < s.len() {
        lemma_nat_grows(s, n + 1);
        assert(s.take(n + 1).drop_last() =~= s.take(n));
        assert(is_digit(s[n]));
    } else {
        assert(s.take(n) =~= s);
    }
}

fn find_non_digit(cs: &Vec<char>, from: usize) -> (r: bool)
    requires
        from <= cs@.len(),
    ensures
        r == !(forall|i: int| from <= i < cs@.len() ==> is_digit(#[trigger] cs@[i])),
{
    let mut i: usize = from;
    while i < cs.len()
        invariant
            from <= i <= cs@.len(),
            forall|j: int| from <= j < i ==> is_digit(#[trigger] cs@[j]),
        decreases cs@.len() - i,
    {
        if !digit_char(cs[i]) {
            return true;
        }
        i += 1;
    }
    false
}

const HALF: u128 = 170141183460469231731687303715884105728;

/// Parses an integer literal.
pub fn parse_int(s: &str) -> (r: Option<i128>)
    ensures
        r == int_value(s@),
{
    let cs = chars_of(s);
    let negative = cs.len() > 0 && cs[0] == '-';
    let start: usize = if cs.len() > 0 && (cs[0] == '-' || cs[0] == '+') {
        1
    } else {
        0
    };
    let ghost digits = s@.skip(sign_len(s@));
    if start == cs.len() || find_non_digit(&cs, start) {
        proof {
            if all_digits(digits) {
                assert forall|i: int| start <= i < cs@.len() implies is_digit(
                    #[trigger] cs@[i],
                ) by {
                    assert(cs@[i] == digits[i - start]);
                }
            }
        }
        return None;
    }
    proof {
        assert forall|i: int| 0 <= i < digits.len() implies is_digit(#[trigger] digits[i]) by {
            assert(digits[i] == cs@[i + start]);
        }
    }
    let mut acc: u128 = 0;
    let mut i: usize = start;
    proof {
        assert(digits.take(0) =~= Seq::empty());
    }
    while i < cs.len()
        invariant
            start <= i <= cs@.len(),
            cs@ == s@,
            start == sign_len(s@),
            digits == s@.skip(sign_len(s@)),
            all_digits(digits),
            acc == nat_of(digits.take(i - start)),
            acc <= HALF,
        decreases cs@.len() - i,
    {
        let ghost k = i - start;
        proof {
            assert(digits.take(k + 1).drop_last() =~= digits.take(k));
            assert(digits.take(k + 1).last() == cs@[i as int]);
            assert(is_digit(digits[k]));
            lemma_nat_grows(digits, k + 1);
        }
        let d: u32 = cs[i] as u32 - 48;
        if acc > 17014118346046923173168730371588410572 {
            return None;
        }
        acc = acc * 10 + d as u128;
        if acc > HALF {
            return None;
        }
        i += 1;
    }
    proof {
        assert(digits.take(digits.len() as int) =~= digits);
    }
    if negative {
        if acc == HALF {
            Some(i128::MIN)
        } else {
            Some(-(acc as i128))
        }
    } else if acc == HALF {
        None
    } else {
        Some(acc as i128)
    }
}

// ---------- floating-point spellings ----------

/// The first position from `i` on that holds no digit.
pub open spec fn digits_end(s: Seq<char>, i: int) -> int
    decreases s.len() - i,
{
    if 0 <= i < s.len() && is_digit(s[i]) {
        digits_end(s, i + 1)
    } else {
        i
    }
}

fn skip_digits(cs: &Vec<char>, from: usize) -> (r: usize)
    requires
        from <= cs@.len(),
    ensures
        r == digits_end(cs@, from as int),
        from <= r <= cs@.len(),
{
    let mut i: usize = from;
    while i < cs.len() && digit_char(cs[i])
        invariant
            from <= i <= cs@.len(),
            digits_end(cs@, i as int) == digits_end(cs@, from as int),
        decreases cs@.len() - i,
    {
        i += 1;
    }
    i
}

/// Whether a text ends at `i`, or in an exponent that starts there.
pub open spec fn exponent_at(s: Seq<char>, i: int) -> bool {
    if i == s.len() {
        true
    } else if s[i] == 'e' || s[i] == 'E' {
        let k = if i + 1 < s.len() && (s[i + 1] == '-' || s[i + 1] == '+') {
            i + 2
        } else {
            i + 1
        };
        k < s.len() && digits_end(s, k) == s.len()
    } else {
        false
    }
}

/// Whether a text is, from `i` on, digits with at most one point among
/// or beside them, and at most one exponent.
pub open spec fn number_at(s: Seq<char>, i: int) -> bool {
    let j = digits_end(s, i);
    if j < s.len() && s[j] == '.' {
        let k = digits_end(s, j + 1);
        (j > i || k > j + 1) && exponent_at(s, k)
    } else {
        j > i && exponent_at(s, j)
    }
}

/// Whether the text from `i` on is a word, in either case.
pub open spec fn word_at(s: Seq<char>, i: int, lower: Seq<char>, upper: Seq<char>) -> bool {
    s.len() - i == lower.len() && forall|k: int|
        0 <= k < lower.len() ==> (#[trigger] s[i + k] == lower[k] || s[i + k] == upper[k])
}

/// Whether a text spells a floating-point number: an optional sign and
/// `inf`, `infinity`, `nan` or a number.
pub open spec fn float_text(s: Seq<char>) -> bool {
    let i = sign_len(s);
    ||| word_at(s, i, "inf"@, "INF"@)
    ||| word_at(s, i, "infinity"@, "INFINITY"@)
    ||| word_at(s, i, "nan"@, "NAN"@)
    ||| number_at(s, i)
}

fn at_word(cs: &Vec<char>, i: usize, lower: &str, upper: &str) -> (r: bool)
    requires
        i <= cs@.len(),
        lower@.len() == upper@.len(),
    ensures
        r == word_at(cs@, i as int, lower@, upper@),
{
    let a = chars_of(lower);
    let b = chars_of(upper);
    let n: usize = cs.len();
    if n - i != a.len() {
        return false;
    }
    let mut k: usize = 0;
    while k < a.len()
        invariant
            i <= n,
            n == cs@.len(),
            n - i == a@.len(),
            a@ == lower@,
            b@ == upper@,
            a@.len() == b@.len(),
            k <= a@.len(),
            forall|j: int|
                0 <= j < k ==> (#[trigger] cs@[i + j] == lower@[j] || cs@[i + j] == upper@[j]),
        decreases a@.len() - k,
    {
        if cs[i + k] != a[k] && cs[i + k] != b[k] {
            assert(cs@[i + k] != lower@[k as int]);
            return false;
        }
        k += 1;
    }
    true
}

fn at_exponent(cs: &Vec<char>, i: usize) -> (r: bool)
    requires
        i <= cs@.len(),
    ensures
        r == exponent_at(cs@, i as int),
{
    if i == cs.len() {
        return true;
    }
    if cs[i] != 'e' && cs[i] != 'E' {
        return false;
    }
    let k: usize = if i + 1 < cs.len() && (cs[i + 1] == '-' || cs[i + 1] == '+') {
        i + 2
    } else {
        i + 1
    };
    k < cs.len() && skip_digits(cs, k) == cs.len()
}

fn at_number(cs: &Vec<char>, i: usize) -> (r: bool)
    requires
        i <= cs@.len(),
    ensures
        r == number_at(cs@, i as int),
{
    let j = skip_digits(cs, i);
    if j < cs.len() && cs[j] == '.' {
        let k = skip_digits(cs, j + 1);
        (j > i || k > j + 1) && at_exponent(cs, k)
    } else {
        j > i && at_exponent(cs, j)
    }
}

/// Whether a text spells a floating-point number.
pub fn spells_float(s: &str) -> (r: bool)
    ensures
        r == float_text(s@),
{
    let cs = chars_of(s);
    let i: usize = if cs.len() > 0 && (cs[0] == '-' || cs[0] == '+') {
        1
    } else {
        0
    };
    proof {
        reveal_strlit("inf");
        reveal_strlit("INF");
        reveal_strlit("infinity");
        reveal_strlit("INFINITY");
        reveal_strlit("nan");
        reveal_strlit("NAN");
    }
    at_word(&cs, i, "inf", "INF") || at_word(&cs, i, "infinity", "INFINITY") || at_word(
        &cs,
        i,
        "nan",
        "NAN",
    ) || at_number(&cs, i)
}

// ---------- string escapes ----------

/// A string token's text without its quotes.
pub open spec fn unquoted(s: Seq<char>) -> Seq<char> {
    let inner = if s.len() > 0 && s[0] == '"' {
        s.skip(1)
    } else {
        s
    };
    if inner.len() > 0 && inner.last() == '"' {
        inner.drop_last()
    } else {
        inner
    }
}

/// What `\` and the character behind it stand for.
pub open spec fn escape(c: char) -> Seq<char> {
    if c == 'n' {
        seq!['\n']
    } else if c == 't' {
        seq!['\t']
    } else if c == 'r' {
        seq!['\r']
    } else if c == '0' {
        seq!['\0']
    } else if c == '\\' || c == '"' || c == '\'' {
        seq![c]
    } else {
        seq!['\\', c]
    }
}

/// A text with its escapes replaced by what they stand for.
pub open spec fn unescaped(s: Seq<char>) -> Seq<char>
    decreases s.len(),
{
    if s.len() == 0 {
        Seq::empty()
    } else if s[0] == '\\' && s.len() > 1 {
        escape(s[1]) + unescaped(s.skip(2))
    } else {
        seq![s[0]] + unescaped(s.skip(1))
    }
}

fn push_escape(out: &mut String, s: &str, i: usize, c: char)
    requires
        i < s@.len(),
        i < usize::MAX,
        s@[i as int] == c,
    ensures
        final(out)@ == old(out)@ + escape(c),
{
    proof {
        reveal_strlit("\n");
        reveal_strlit("\t");
        reveal_strlit("\r");
        reveal_strlit("\0");
        reveal_strlit("\\");
        assert(s@.subrange(i as int, i + 1) =~= seq![c]);
        assert("\n"@ =~= seq!['\n']);
        assert("\t"@ =~= seq!['\t']);
        assert("\r"@ =~= seq!['\r']);
        assert("\0"@ =~= seq!['\0']);
    }
    if c == 'n' {
        out.append("\n");
    } else if c == 't' {
        out.append("\t");
    } else if c == 'r' {
        out.append("\r");
    } else if c == '0' {
        out.append("\0");
    } else if c == '\\' || c == '"' || c == '\'' {
        out.append(s.substring_char(i, i + 1));
    } else {
        let ghost before = out@;
        out.append("\\");
        out.append(s.substring_char(i, i + 1));
        proof {
            assert(out@ =~= before + escape(c));
        }
    }
}

/// Decodes a `"..."` token's escapes into the string value.
pub fn decode_string(text: &str) -> (r: String)
    ensures
        r@ == unescaped(unquoted(text@)),
{
    let cs = chars_of(text);
    let a: usize = if cs.len() > 0 && cs[0] == '"' {
        1
    } else {
        0
    };
    let b: usize = if cs.len() > a && cs[cs.len() - 1] == '"' {
        cs.len() - 1
    } else {
        cs.len()
    };
    let ghost inner = unquoted(text@);
    proof {
        assert(inner =~= text@.subrange(a as int, b as int));
    }
    let mut out = String::new();
    let mut i: usize = a;
    proof {
        assert(out@ =~= Seq::empty());
        assert(inner.skip(0) =~= inner);
        assert(out@ + unescaped(inner) =~= unescaped(inner));
    }
    while i < b
        invariant
            a <= i <= b <= cs@.len(),
            cs@ == text@,
            inner == text@.subrange(a as int, b as int),
            out@ + unescaped(inner.skip(i - a)) == unescaped(inner),
        decreases b - i,
    {
        let ghost rest = inner.skip(i - a);
        let ghost before = out@;
        proof {
            assert(rest[0] == cs@[i as int]);
            assert(text@.subrange(i as int, i + 1) =~= seq![cs@[i as int]]);
        }
        if cs[i] == '\\' && b - i > 1 {
            push_escape(&mut out, text, i + 1, cs[i + 1]);
            proof {
                assert(rest[1] == cs@[i + 1]);
                assert(rest.skip(2) =~= inner.skip(i + 2 - a));
                assert(out@ + unescaped(rest.skip(2)) =~= before + unescaped(rest));
            }
            i += 2;
        } else {
            out.append(text.substring_char(i, i + 1));
            proof {
                assert(rest.skip(1) =~= inner.skip(i + 1 - a));
                assert(out@ + unescaped(rest.skip(1)) =~= before + unescaped(rest));
            }
            i += 1;
        }
    }
    proof {
        assert(inner.skip(b - a) =~= Seq::empty());
        assert(out@ + unescaped(Seq::empty()) =~= out@);
    }
    out
}

} // verus!
