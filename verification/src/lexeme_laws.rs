//! Literals are read as what they write: a number back from its digits,
//! a text back from its quoted form.

use crate::ast::{ExprV, LiteralV};
use crate::ast_body::expr_of;
use crate::ast_laws::lemma_find_token_only;
use crate::diagnostic::DiagnosticV;
use crate::lexeme::{
    all_digits, cleaned, digits_end, escape, int_value, is_digit, nat_of, number_at, sign_len,
    unescaped, unquoted,
};
use crate::syntax::{solid, token_at, NodeV, SyntaxKind};
use crate::text::{dec, digit};
use vstd::prelude::*;
use vstd::string::*;

verus! {

// ---------- separators ----------

/// A text without separators is left as it is.
pub proof fn law_no_separators(s: Seq<char>)
    requires
        forall|i: int| 0 <= i < s.len() ==> #[trigger] s[i] != '_',
    ensures
        cleaned(s) == s,
    decreases s.len(),
{
    if s.len() > 0 {
        assert(s[s.len() - 1] != '_');
        assert forall|i: int| 0 <= i < s.drop_last().len() implies #[trigger] s.drop_last()[i]
            != '_' by {
            assert(s.drop_last()[i] == s[i]);
        }
        law_no_separators(s.drop_last());
        assert(s.drop_last().push(s.last()) =~= s);
    }
}

/// Cleaning two texts one by one is cleaning them together.
pub proof fn law_cleaned_by_parts(a: Seq<char>, b: Seq<char>)
    ensures
        cleaned(a + b) == cleaned(a) + cleaned(b),
    decreases b.len(),
{
    if b.len() == 0 {
        assert(a + b =~= a);
        assert(cleaned(a) + cleaned(b) =~= cleaned(a));
    } else {
        assert((a + b).drop_last() =~= a + b.drop_last());
        assert((a + b).last() == b.last());
        law_cleaned_by_parts(a, b.drop_last());
        if b.last() == '_' {
        } else {
            assert((cleaned(a) + cleaned(b.drop_last())).push(b.last()) =~= cleaned(a) + cleaned(
                b.drop_last(),
            ).push(b.last()));
        }
    }
}

/// A separator may stand anywhere in a number without changing it.
pub proof fn law_separator_ignored(a: Seq<char>, b: Seq<char>)
    ensures
        cleaned(a + seq!['_'] + b) == cleaned(a + b),
{
    law_cleaned_by_parts(a + seq!['_'], b);
    law_cleaned_by_parts(a, seq!['_']);
    law_cleaned_by_parts(a, b);
    let u = seq!['_'];
    assert(u.drop_last() =~= Seq::empty());
    assert(u.last() == '_');
    reveal_with_fuel(cleaned, 2);
    assert(cleaned(u) =~= Seq::empty());
    assert(cleaned(a) + cleaned(u) =~= cleaned(a));
}

// ---------- whole numbers ----------

proof fn lemma_digit(d: nat)
    requires
        d < 10,
    ensures
        digit(d).len() == 1,
        is_digit(digit(d)[0]),
        digit(d)[0] as u32 == 48 + d,
{
    reveal_strlit("0");
    reveal_strlit("1");
    reveal_strlit("2");
    reveal_strlit("3");
    reveal_strlit("4");
    reveal_strlit("5");
    reveal_strlit("6");
    reveal_strlit("7");
    reveal_strlit("8");
    reveal_strlit("9");
}

pub(crate) proof fn lemma_dec(n: nat)
    ensures
        all_digits(dec(n)),
        nat_of(dec(n)) == n,
    decreases n,
{
    reveal_with_fuel(nat_of, 2);
    if n < 10 {
        lemma_digit(n);
        let s = digit(n);
        assert(s.drop_last() =~= Seq::empty());
        assert(s.last() == s[0]);
    } else {
        lemma_dec(n / 10);
        lemma_digit(n % 10);
        let s = dec(n);
        assert(s.drop_last() =~= dec(n / 10));
        assert(s.last() == digit(n % 10)[0]);
        assert forall|i: int| 0 <= i < s.len() implies is_digit(#[trigger] s[i]) by {
            if i < dec(n / 10).len() {
                assert(s[i] == dec(n / 10)[i]);
            }
        }
    }
}

/// A number is read back from its decimal digits, if it fits.
pub proof fn law_number_read_back(n: nat)
    ensures
        n <= i128::MAX ==> int_value(dec(n)) == Some(n as i128),
        n > i128::MAX ==> int_value(dec(n)) is None,
        cleaned(dec(n)) == dec(n),
{
    lemma_dec(n);
    let s = dec(n);
    assert(is_digit(s[0]));
    assert(s.skip(0) =~= s);
    assert forall|i: int| 0 <= i < s.len() implies #[trigger] s[i] != '_' by {
        assert(is_digit(s[i]));
    }
    law_no_separators(s);
}

/// A number token is read as the number its digits write, with or without
/// separators among them, and without a report; one that does not fit is
/// reported.
pub proof fn law_integer_read(n: NodeV, t: int, v: nat, ds: Seq<DiagnosticV>)
    requires
        n.kind == SyntaxKind::Literal,
        0 <= t < n.children.len(),
        solid(n.children, t),
        forall|m: int| 0 <= m < t ==> !#[trigger] solid(n.children, m),
        token_at(n.children, t)->0.kind == SyntaxKind::IntNumber,
        cleaned(token_at(n.children, t)->0.text) == dec(v),
    ensures
        v <= i128::MAX ==> expr_of(n, ds) == (
            ds,
            Some(ExprV::Literal { value: LiteralV::Int(v as i128), span: n.span }),
        ),
        v > i128::MAX ==> expr_of(n, ds).0.len() == ds.len() + 1,
{
    lemma_find_token_only(n.children, 0, t);
    law_number_read_back(v);
}

// ---------- texts ----------

/// A character as it is written between quotes.
pub open spec fn written_char(c: char) -> Seq<char> {
    if c == '\n' {
        seq!['\\', 'n']
    } else if c == '\t' {
        seq!['\\', 't']
    } else if c == '\r' {
        seq!['\\', 'r']
    } else if c == '\0' {
        seq!['\\', '0']
    } else if c == '\\' || c == '"' || c == '\'' {
        seq!['\\', c]
    } else {
        seq![c]
    }
}

/// A text as it is written between quotes.
pub open spec fn written(s: Seq<char>) -> Seq<char>
    decreases s.len(),
{
    if s.len() == 0 {
        Seq::empty()
    } else {
        written_char(s[0]) + written(s.skip(1))
    }
}

/// A text is read back from its written form.
pub proof fn law_text_read_back(s: Seq<char>)
    ensures
        unescaped(written(s)) == s,
    decreases s.len(),
{
    if s.len() > 0 {
        let rest = s.skip(1);
        law_text_read_back(rest);
        let w = written(s);
        let head = written_char(s[0]);
        if head.len() == 2 {
            assert(w[0] == '\\' && w[1] == head[1]);
            assert(w.skip(2) =~= written(rest));
            assert(escape(w[1]) =~= seq![s[0]]);
        } else {
            assert(w[0] == s[0]);
            assert(w.skip(1) =~= written(rest));
        }
        assert(seq![s[0]] + rest =~= s);
    }
}

/// An escape that stands for nothing is kept as it is written.
pub proof fn law_unknown_escape_kept(c: char, t: Seq<char>)
    requires
        c != 'n' && c != 't' && c != 'r' && c != '0' && c != '\\' && c != '"' && c != '\'',
    ensures
        unescaped(seq!['\\', c] + t) == seq!['\\', c] + unescaped(t),
{
    let w = seq!['\\', c] + t;
    assert(w[0] == '\\' && w[1] == c);
    assert(w.skip(2) =~= t);
}

/// Quotes are taken off, and nothing else.
pub proof fn law_quotes_taken_off(t: Seq<char>)
    ensures
        unquoted(seq!['"'] + t + seq!['"']) == t,
{
    let q = seq!['"'] + t + seq!['"'];
    assert(q[0] == '"');
    let inner = q.skip(1);
    assert(inner =~= t + seq!['"']);
    assert(inner.last() == '"');
    assert(inner.drop_last() =~= t);
}

/// A quoted text is read as the text it writes, without a report.
pub proof fn law_string_read(n: NodeV, t: int, s: Seq<char>, ds: Seq<DiagnosticV>)
    requires
        n.kind == SyntaxKind::Literal,
        0 <= t < n.children.len(),
        solid(n.children, t),
        forall|m: int| 0 <= m < t ==> !#[trigger] solid(n.children, m),
        token_at(n.children, t)->0.kind == SyntaxKind::Str,
        token_at(n.children, t)->0.text == seq!['"'] + written(s) + seq!['"'],
    ensures
        expr_of(n, ds) == (
            ds,
            Some(ExprV::Literal { value: LiteralV::Str(s), span: n.span }),
        ),
{
    lemma_find_token_only(n.children, 0, t);
    law_quotes_taken_off(written(s));
    law_text_read_back(s);
}

// ---------- fractions ----------

proof fn lemma_digits_end(s: Seq<char>, i: int, j: int)
    requires
        0 <= i <= j <= s.len(),
        forall|k: int| i <= k < j ==> is_digit(#[trigger] s[k]),
        j < s.len() ==> !is_digit(s[j]),
    ensures
        digits_end(s, i) == j,
    decreases j - i,
{
    if i < j {
        assert(is_digit(s[i]));
        lemma_digits_end(s, i + 1, j);
    }
}

/// Digits, a point and digits are a fraction; it is read as it is written
/// and without a report.
pub proof fn law_fraction_read(
    n: NodeV,
    t: int,
    a: Seq<char>,
    b: Seq<char>,
    ds: Seq<DiagnosticV>,
)
    requires
        n.kind == SyntaxKind::Literal,
        0 <= t < n.children.len(),
        solid(n.children, t),
        forall|m: int| 0 <= m < t ==> !#[trigger] solid(n.children, m),
        token_at(n.children, t)->0.kind == SyntaxKind::FloatNumber,
        all_digits(a),
        all_digits(b),
        cleaned(token_at(n.children, t)->0.text) == a + seq!['.'] + b,
    ensures
        expr_of(n, ds) == (
            ds,
            Some(
                ExprV::Literal { value: LiteralV::Float(a + seq!['.'] + b), span: n.span },
            ),
        ),
{
    lemma_find_token_only(n.children, 0, t);
    let s = a + seq!['.'] + b;
    assert(is_digit(a[0]));
    assert(s[0] == a[0]);
    assert(sign_len(s) == 0);
    assert(s[a.len() as int] == '.');
    assert forall|k: int| 0 <= k < a.len() implies is_digit(#[trigger] s[k]) by {
        assert(s[k] == a[k]);
    }
    lemma_digits_end(s, 0, a.len() as int);
    assert forall|k: int| a.len() + 1 <= k < s.len() implies is_digit(#[trigger] s[k]) by {
        assert(s[k] == b[k - a.len() - 1]);
    }
    lemma_digits_end(s, a.len() as int + 1, s.len() as int);
    assert(number_at(s, 0));
}

} // verus!
