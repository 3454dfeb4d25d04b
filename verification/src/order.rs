//! Stable sorting, stated once for every sequence the compiler orders,
//! and the lexicographic order of texts.

use crate::text::chars_of;
use vstd::prelude::*;

verus! {

/// `s` with `x` inserted behind the last element that may stand before
/// it.
pub open spec fn insert_sorted<T>(s: Seq<T>, x: T, le: spec_fn(T, T) -> bool) -> Seq<T>
    decreases s.len(),
{
    if s.len() == 0 || le(s.last(), x) {
        s.push(x)
    } else {
        insert_sorted(s.drop_last(), x, le).push(s.last())
    }
}

/// `s` in order of `le`; elements that `le` does not tell apart keep
/// the order they had.
pub open spec fn sorted<T>(s: Seq<T>, le: spec_fn(T, T) -> bool) -> Seq<T>
    decreases s.len(),
{
    if s.len() == 0 {
        s
    } else {
        insert_sorted(sorted(s.drop_last(), le), s.last(), le)
    }
}

/// Whether every element may stand before each later one.
pub open spec fn ordered<T>(s: Seq<T>, le: spec_fn(T, T) -> bool) -> bool {
    forall|i: int, j: int| 0 <= i < j < s.len() ==> le(#[trigger] s[i], #[trigger] s[j])
}

/// Whether `le` compares any two elements and is transitive.
pub open spec fn total_preorder<T>(le: spec_fn(T, T) -> bool) -> bool {
    &&& forall|a: T, b: T| #[trigger] le(a, b) || le(b, a)
    &&& forall|a: T, b: T, c: T| #[trigger] le(a, b) && #[trigger] le(b, c) ==> le(a, c)
}

/// Whether every element of `s` may stand before `y`.
spec fn bounded<T>(s: Seq<T>, y: T, le: spec_fn(T, T) -> bool) -> bool {
    forall|i: int| 0 <= i < s.len() ==> le(#[trigger] s[i], y)
}

proof fn lemma_insert<T>(s: Seq<T>, x: T, le: spec_fn(T, T) -> bool)
    requires
        total_preorder(le),
        ordered(s, le),
    ensures
        ordered(insert_sorted(s, x, le), le),
        insert_sorted(s, x, le).to_multiset() == s.to_multiset().insert(x),
        insert_sorted(s, x, le).len() == s.len() + 1,
        forall|y: T|
            bounded(s, y, le) && le(x, y) ==> #[trigger] bounded(insert_sorted(s, x, le), y, le),
    decreases s.len(),
{
    broadcast use vstd::seq_lib::group_to_multiset_ensures;

    let r = insert_sorted(s, x, le);
    if s.len() == 0 || le(s.last(), x) {
        assert forall|i: int, j: int| 0 <= i < j < r.len() implies
        le(#[trigger] r[i], #[trigger] r[j]) by {
            if j == s.len() {
                if i < s.len() - 1 {
                    assert(le(s[i], s[s.len() - 1]));
                }
            }
        }
    } else {
        let p = s.drop_last();
        assert(ordered(p, le)) by {
            assert forall|i: int, j: int| 0 <= i < j < p.len() implies
            le(#[trigger] p[i], #[trigger] p[j]) by {
                assert(le(s[i], s[j]));
            }
        }
        lemma_insert(p, x, le);
        let q = insert_sorted(p, x, le);
        assert(le(x, s.last()));
        assert(bounded(p, s.last(), le)) by {
            assert forall|i: int| 0 <= i < p.len() implies le(#[trigger] p[i], s.last()) by {
                assert(le(s[i], s[s.len() - 1]));
            }
        }
        assert(bounded(q, s.last(), le));
        assert forall|i: int, j: int| 0 <= i < j < r.len() implies le(
            #[trigger] r[i],
            #[trigger] r[j],
        ) by {
            if j < q.len() {
                assert(le(q[i], q[j]));
            } else {
                assert(le(q[i], s.last()));
            }
        }
        assert(p.push(s.last()) =~= s);
        assert(r.to_multiset() =~= s.to_multiset().insert(x));
        assert forall|y: T| bounded(s, y, le) && le(x, y) implies #[trigger] bounded(r, y, le) by {
            assert(bounded(p, y, le)) by {
                assert forall|i: int| 0 <= i < p.len() implies le(#[trigger] p[i], y) by {
                    assert(le(s[i], y));
                }
            }
            assert(bounded(q, y, le));
            assert(le(s[s.len() - 1], y));
            assert forall|i: int| 0 <= i < r.len() implies le(#[trigger] r[i], y) by {
                if i < q.len() {
                    assert(le(q[i], y));
                }
            }
        }
    }
}

/// Sorting orders the elements and neither loses nor adds any.
pub proof fn law_sorted<T>(s: Seq<T>, le: spec_fn(T, T) -> bool)
    requires
        total_preorder(le),
    ensures
        ordered(sorted(s, le), le),
        sorted(s, le).to_multiset() == s.to_multiset(),
        sorted(s, le).len() == s.len(),
    decreases s.len(),
{
    broadcast use vstd::seq_lib::group_to_multiset_ensures;

    if s.len() > 0 {
        law_sorted(s.drop_last(), le);
        lemma_insert(sorted(s.drop_last(), le), s.last(), le);
        assert(s.drop_last().push(s.last()) =~= s);
    }
}

/// The elements that stand level with `z`, in order.
pub open spec fn level_with<T>(s: Seq<T>, z: T, le: spec_fn(T, T) -> bool) -> Seq<T>
    decreases s.len(),
{
    if s.len() == 0 {
        Seq::empty()
    } else {
        let done = level_with(s.drop_last(), z, le);
        if le(s.last(), z) && le(z, s.last()) {
            done.push(s.last())
        } else {
            done
        }
    }
}

proof fn lemma_insert_stable<T>(s: Seq<T>, x: T, z: T, le: spec_fn(T, T) -> bool)
    requires
        total_preorder(le),
    ensures
        level_with(insert_sorted(s, x, le), z, le) == level_with(s.push(x), z, le),
    decreases s.len(),
{
    reveal_with_fuel(level_with, 3);
    assert(s.push(x).drop_last() =~= s);
    if !(s.len() == 0 || le(s.last(), x)) {
        let p = s.drop_last();
        let q = insert_sorted(p, x, le);
        lemma_insert_stable(p, x, z, le);
        assert(q.push(s.last()).drop_last() =~= q);
        assert(p.push(x).drop_last() =~= p);
        assert(!(le(s.last(), z) && le(z, x)));
    }
}

/// Sorting is stable: elements that stand level keep their order.
pub proof fn law_sorted_stable<T>(s: Seq<T>, z: T, le: spec_fn(T, T) -> bool)
    requires
        total_preorder(le),
    ensures
        level_with(sorted(s, le), z, le) == level_with(s, z, le),
    decreases s.len(),
{
    if s.len() > 0 {
        let front = sorted(s.drop_last(), le);
        law_sorted_stable(s.drop_last(), z, le);
        lemma_insert_stable(front, s.last(), z, le);
        assert(front.push(s.last()).drop_last() =~= front);
    }
}

/// Inserting at the end of an already ordered run changes nothing
/// else: sorting an ordered sequence is the identity.
pub proof fn law_sorted_idempotent<T>(s: Seq<T>, le: spec_fn(T, T) -> bool)
    requires
        ordered(s, le),
    ensures
        sorted(s, le) == s,
    decreases s.len(),
{
    if s.len() > 0 {
        let p = s.drop_last();
        assert(ordered(p, le)) by {
            assert forall|i: int, j: int| 0 <= i < j < p.len() implies
            le(#[trigger] p[i], #[trigger] p[j]) by {
                assert(le(s[i], s[j]));
            }
        }
        law_sorted_idempotent(p, le);
        if p.len() > 0 {
            assert(le(s[s.len() - 2], s[s.len() - 1]));
        }
        assert(p.push(s.last()) =~= s);
    }
}

/// Whether text `a` stands before or at text `b`, character by
/// character.
pub open spec fn text_le(a: Seq<char>, b: Seq<char>) -> bool
    decreases a.len(),
{
    if a.len() == 0 {
        true
    } else if b.len() == 0 {
        false
    } else if a[0] != b[0] {
        (a[0] as int) < (b[0] as int)
    } else {
        text_le(a.subrange(1, a.len() as int), b.subrange(1, b.len() as int))
    }
}

/// The text order compares any two texts.
pub proof fn lemma_text_le_total(a: Seq<char>, b: Seq<char>)
    ensures
        text_le(a, b) || text_le(b, a),
    decreases a.len(),
{
    if a.len() > 0 && b.len() > 0 && a[0] == b[0] {
        lemma_text_le_total(a.subrange(1, a.len() as int), b.subrange(1, b.len() as int));
    }
}

/// The text order is transitive.
pub proof fn lemma_text_le_transitive(a: Seq<char>, b: Seq<char>, c: Seq<char>)
    requires
        text_le(a, b),
        text_le(b, c),
    ensures
        text_le(a, c),
    decreases a.len(),
{
    if a.len() > 0 && b.len() > 0 && c.len() > 0 && a[0] == b[0] && b[0] == c[0] {
        lemma_text_le_transitive(
            a.subrange(1, a.len() as int),
            b.subrange(1, b.len() as int),
            c.subrange(1, c.len() as int),
        );
    }
}

/// The code point of `c`.
fn code_point(c: char) -> (r: u32)
    ensures
        r as int == c as int,
{
    c as u32
}

/// Whether text `a` stands before or at text `b`.
pub fn text_before(a: &str, b: &str) -> (r: bool)
    ensures
        r == text_le(a@, b@),
{
    let x = chars_of(a);
    let y = chars_of(b);
    let mut i: usize = 0;
    proof {
        assert(x@.subrange(0, x@.len() as int) =~= x@);
        assert(y@.subrange(0, y@.len() as int) =~= y@);
    }
    while i < x.len()
        invariant
            i <= x@.len(),
            i <= y@.len(),
            x@ == a@,
            y@ == b@,
            text_le(x@.subrange(i as int, x@.len() as int), y@.subrange(i as int, y@.len() as int))
                == text_le(x@, y@),
        decreases x@.len() - i,
    {
        let ghost p = x@.subrange(i as int, x@.len() as int);
        let ghost q = y@.subrange(i as int, y@.len() as int);
        if i >= y.len() {
            return false;
        }
        let c: char = x[i];
        let d: char = y[i];
        if c != d {
            return code_point(c) < code_point(d);
        }
        proof {
            assert(p.subrange(1, p.len() as int) =~= x@.subrange(i + 1, x@.len() as int));
            assert(q.subrange(1, q.len() as int) =~= y@.subrange(i + 1, y@.len() as int));
        }
        i += 1;
    }
    true
}

/// `s`, each element replaced by what `f` makes of it.
pub open spec fn mapped<A, B>(s: Seq<A>, f: spec_fn(A) -> B) -> Seq<B> {
    Seq::new(s.len(), |i: int| f(s[i]))
}

proof fn lemma_insert_mapped<A, B>(
    s: Seq<A>,
    x: A,
    f: spec_fn(A) -> B,
    le: spec_fn(A, A) -> bool,
    of: spec_fn(B, B) -> bool,
)
    requires
        forall|a: A, b: A| #[trigger] le(a, b) == of(f(a), f(b)),
    ensures
        mapped(insert_sorted(s, x, le), f) == insert_sorted(mapped(s, f), f(x), of),
    decreases s.len(),
{
    let m = mapped(s, f);
    if s.len() == 0 || le(s.last(), x) {
        if s.len() > 0 {
            assert(m.last() == f(s.last()));
        }
        assert(mapped(s.push(x), f) =~= m.push(f(x)));
    } else {
        lemma_insert_mapped(s.drop_last(), x, f, le, of);
        assert(m.drop_last() =~= mapped(s.drop_last(), f));
        let rest = insert_sorted(s.drop_last(), x, le);
        assert(m.last() == f(s.last()));
        assert(mapped(rest.push(s.last()), f) =~= mapped(rest, f).push(f(s.last())));
    }
}

/// Sorting commutes with a mapping that keeps the order.
pub proof fn lemma_sorted_mapped<A, B>(
    s: Seq<A>,
    f: spec_fn(A) -> B,
    le: spec_fn(A, A) -> bool,
    of: spec_fn(B, B) -> bool,
)
    requires
        forall|a: A, b: A| #[trigger] le(a, b) == of(f(a), f(b)),
    ensures
        mapped(sorted(s, le), f) == sorted(mapped(s, f), of),
    decreases s.len(),
{
    if s.len() == 0 {
        assert(mapped(s, f) =~= Seq::empty());
    } else {
        lemma_sorted_mapped(s.drop_last(), f, le, of);
        assert(mapped(s, f).drop_last() =~= mapped(s.drop_last(), f));
        lemma_insert_mapped(sorted(s.drop_last(), le), s.last(), f, le, of);
    }
}

/// Inserts `x` into a sorted run.
fn insert_by<T, F: Fn(&T, &T) -> bool>(
    out: &mut Vec<T>,
    x: T,
    before: &F,
    le: Ghost<spec_fn(T, T) -> bool>,
)
    requires
        forall|a: &T, b: &T| call_requires(*before, (a, b)),
        forall|a: &T, b: &T, r: bool|
            #[trigger] call_ensures(*before, (a, b), r) ==> r == (le@)(*a, *b),
    ensures
        final(out)@ == insert_sorted(old(out)@, x, le@),
{
    let ghost all = out@;
    let mut j: usize = out.len();
    proof {
        assert(all.take(j as int) =~= all);
        assert(all.skip(j as int) =~= Seq::empty());
        let ins = insert_sorted(all, x, le@);
        assert(ins + Seq::<T>::empty() =~= ins);
    }
    while j > 0
        invariant_except_break
            j <= out@.len(),
            insert_sorted(all.take(j as int), x, le@) + all.skip(j as int) == insert_sorted(
                all,
                x,
                le@,
            ),
        invariant
            all == out@,
            out@ == old(out)@,
            forall|a: &T, b: &T| call_requires(*before, (a, b)),
            forall|a: &T, b: &T, r: bool|
                #[trigger] call_ensures(*before, (a, b), r) ==> r == (le@)(*a, *b),
        ensures
            j <= out@.len(),
            insert_sorted(all.take(j as int), x, le@) + all.skip(j as int) == insert_sorted(
                all,
                x,
                le@,
            ),
            j == 0 || (le@)(all[j - 1], x),
        decreases j,
    {
        let fits = before(&out[j - 1], &x);
        if fits {
            assert((le@)(all[j - 1], x));
            break ;
        }
        proof {
            let t = all.take(j as int);
            assert(!(le@)(all[j - 1], x));
            assert(t.last() == all[j - 1]);
            assert(t.drop_last() =~= all.take(j - 1));
            let ins = insert_sorted(t.drop_last(), x, le@);
            assert(ins.push(t.last()) + all.skip(j as int) =~= ins + all.skip(j - 1));
        }
        j -= 1;
    }
    proof {
        let t = all.take(j as int);
        if j > 0 {
            assert(t.last() == all[j - 1]);
        }
        assert(insert_sorted(t, x, le@) == t.push(x));
    }
    out.insert(j, x);
    proof {
        assert(out@ =~= all.take(j as int).push(x) + all.skip(j as int));
    }
}

/// Sorts by an order that `before` decides; equal elements keep the
/// order they had.
pub(crate) fn sort_by<T, F: Fn(&T, &T) -> bool>(
    v: Vec<T>,
    before: F,
    le: Ghost<spec_fn(T, T) -> bool>,
) -> (r: Vec<T>)
    requires
        forall|a: &T, b: &T| call_requires(before, (a, b)),
        forall|a: &T, b: &T, r: bool|
            #[trigger] call_ensures(before, (a, b), r) ==> r == (le@)(*a, *b),
    ensures
        r@ == sorted(v@, le@),
{
    let ghost all = v@;
    let mut todo = v;
    let mut out: Vec<T> = Vec::new();
    let mut i: usize = 0;
    let n: usize = todo.len();
    proof {
        assert(all.skip(0) =~= all);
        assert(all.take(0) =~= Seq::empty());
        assert(out@ =~= Seq::empty());
    }
    while i < n
        invariant
            i <= n,
            n == all.len(),
            todo@ == all.skip(i as int),
            out@ == sorted(all.take(i as int), le@),
            forall|a: &T, b: &T| call_requires(before, (a, b)),
            forall|a: &T, b: &T, r: bool|
                #[trigger] call_ensures(before, (a, b), r) ==> r == (le@)(*a, *b),
        decreases n - i,
    {
        let x = todo.remove(0);
        proof {
            assert(todo@ =~= all.skip(i + 1));
            assert(all.take(i + 1).drop_last() =~= all.take(i as int));
            assert(all.take(i + 1).last() == x);
        }
        insert_by(&mut out, x, &before, le);
        i += 1;
    }
    proof {
        assert(all.take(n as int) =~= all);
    }
    out
}

/// Whether every two elements of a sequence are related.
pub open spec fn pairwise<T>(s: Seq<T>, rel: spec_fn(T, T) -> bool) -> bool {
    forall|i: int, j: int| 0 <= i < j < s.len() ==> rel(#[trigger] s[i], #[trigger] s[j])
}

/// Whether every element of a sequence is related to `y`.
pub open spec fn all_related<T>(s: Seq<T>, y: T, rel: spec_fn(T, T) -> bool) -> bool {
    forall|i: int| 0 <= i < s.len() ==> rel(#[trigger] s[i], y)
}

proof fn lemma_insert_pairwise<T>(
    s: Seq<T>,
    x: T,
    le: spec_fn(T, T) -> bool,
    rel: spec_fn(T, T) -> bool,
)
    requires
        forall|a: T, b: T| #[trigger] rel(a, b) ==> rel(b, a),
        pairwise(s, rel),
        all_related(s, x, rel),
    ensures
        pairwise(insert_sorted(s, x, le), rel),
        forall|y: T|
            all_related(s, y, rel) && rel(x, y) ==> #[trigger] all_related(
                insert_sorted(s, x, le),
                y,
                rel,
            ),
    decreases s.len(),
{
    let out = insert_sorted(s, x, le);
    if s.len() == 0 || le(s.last(), x) {
        assert forall|y: T| all_related(s, y, rel) && rel(x, y) implies #[trigger] all_related(
            out,
            y,
            rel,
        ) by {
            assert forall|i: int| 0 <= i < out.len() implies rel(#[trigger] out[i], y) by {
                if i < s.len() {
                    assert(out[i] == s[i]);
                }
            }
        }
        assert forall|i: int, j: int| 0 <= i < j < out.len() implies rel(
            #[trigger] out[i],
            #[trigger] out[j],
        ) by {
            assert(out[i] == s[i]);
            if j < s.len() {
                assert(out[j] == s[j]);
            }
        }
    } else {
        let head = s.drop_last();
        let z = s.last();
        let ins = insert_sorted(head, x, le);
        assert(pairwise(head, rel)) by {
            assert forall|i: int, j: int| 0 <= i < j < head.len() implies rel(
                #[trigger] head[i],
                #[trigger] head[j],
            ) by {
                assert(rel(s[i], s[j]));
            }
        }
        assert(all_related(head, x, rel)) by {
            assert forall|i: int| 0 <= i < head.len() implies rel(#[trigger] head[i], x) by {
                assert(rel(s[i], x));
            }
        }
        lemma_insert_pairwise(head, x, le, rel);
        assert(all_related(head, z, rel)) by {
            assert forall|i: int| 0 <= i < head.len() implies rel(#[trigger] head[i], z) by {
                assert(rel(s[i], s[s.len() - 1]));
            }
        }
        assert(rel(s[s.len() - 1], x));
        assert(rel(x, z));
        assert(all_related(ins, z, rel));
        assert forall|i: int, j: int| 0 <= i < j < out.len() implies rel(
            #[trigger] out[i],
            #[trigger] out[j],
        ) by {
            assert(out[i] == ins[i]);
            if j < ins.len() {
                assert(out[j] == ins[j]);
            }
        }
        assert forall|y: T| all_related(s, y, rel) && rel(x, y) implies #[trigger] all_related(
            out,
            y,
            rel,
        ) by {
            assert(all_related(head, y, rel)) by {
                assert forall|i: int| 0 <= i < head.len() implies rel(#[trigger] head[i], y) by {
                    assert(rel(s[i], y));
                }
            }
            assert(all_related(ins, y, rel));
            assert(rel(s[s.len() - 1], y));
            assert forall|i: int| 0 <= i < out.len() implies rel(#[trigger] out[i], y) by {
                if i < ins.len() {
                    assert(out[i] == ins[i]);
                }
            }
        }
    }
}

/// What holds of every two elements still does when they are sorted.
pub proof fn lemma_sorted_pairwise<T>(
    s: Seq<T>,
    le: spec_fn(T, T) -> bool,
    rel: spec_fn(T, T) -> bool,
)
    requires
        forall|a: T, b: T| #[trigger] rel(a, b) ==> rel(b, a),
        pairwise(s, rel),
    ensures
        pairwise(sorted(s, le), rel),
        forall|y: T|
            all_related(s, y, rel) ==> #[trigger] all_related(sorted(s, le), y, rel),
    decreases s.len(),
{
    if s.len() > 0 {
        let head = s.drop_last();
        assert forall|i: int, j: int| 0 <= i < j < head.len() implies rel(
            #[trigger] head[i],
            #[trigger] head[j],
        ) by {
            assert(rel(s[i], s[j]));
        }
        lemma_sorted_pairwise(head, le, rel);
        assert(all_related(head, s.last(), rel)) by {
            assert forall|i: int| 0 <= i < head.len() implies rel(#[trigger] head[i], s.last()) by {
                assert(rel(s[i], s[s.len() - 1]));
            }
        }
        assert(all_related(sorted(head, le), s.last(), rel));
        lemma_insert_pairwise(sorted(head, le), s.last(), le, rel);
        assert forall|y: T| all_related(s, y, rel) implies #[trigger] all_related(
            sorted(s, le),
            y,
            rel,
        ) by {
            assert(all_related(head, y, rel)) by {
                assert forall|i: int| 0 <= i < head.len() implies rel(#[trigger] head[i], y) by {
                    assert(rel(s[i], y));
                }
            }
            assert(all_related(sorted(head, le), y, rel));
            assert(rel(s[s.len() - 1], y));
        }
    }
}

/// What holds of every element still does when they are sorted.
pub proof fn lemma_sorted_all<T>(s: Seq<T>, le: spec_fn(T, T) -> bool, p: spec_fn(T) -> bool)
    requires
        forall|i: int| 0 <= i < s.len() ==> p(#[trigger] s[i]),
    ensures
        sorted(s, le).len() == s.len(),
        forall|i: int| 0 <= i < s.len() ==> p(#[trigger] sorted(s, le)[i]),
    decreases s.len(),
{
    if s.len() > 0 {
        let head = s.drop_last();
        assert forall|i: int| 0 <= i < head.len() implies p(#[trigger] head[i]) by {
            assert(p(s[i]));
        }
        lemma_sorted_all(head, le, p);
        assert(p(s[s.len() - 1]));
        lemma_insert_all(sorted(head, le), s.last(), le, p);
    }
}

proof fn lemma_insert_all<T>(
    s: Seq<T>,
    x: T,
    le: spec_fn(T, T) -> bool,
    p: spec_fn(T) -> bool,
)
    requires
        forall|i: int| 0 <= i < s.len() ==> p(#[trigger] s[i]),
        p(x),
    ensures
        insert_sorted(s, x, le).len() == s.len() + 1,
        forall|i: int| 0 <= i <= s.len() ==> p(#[trigger] insert_sorted(s, x, le)[i]),
    decreases s.len(),
{
    let out = insert_sorted(s, x, le);
    if s.len() == 0 || le(s.last(), x) {
        assert forall|i: int| 0 <= i <= s.len() implies p(#[trigger] out[i]) by {
            if i < s.len() {
                assert(out[i] == s[i]);
            }
        }
    } else {
        let head = s.drop_last();
        assert forall|i: int| 0 <= i < head.len() implies p(#[trigger] head[i]) by {
            assert(p(s[i]));
        }
        lemma_insert_all(head, x, le, p);
        let ins = insert_sorted(head, x, le);
        assert(p(s[s.len() - 1]));
        assert forall|i: int| 0 <= i <= s.len() implies p(#[trigger] out[i]) by {
            if i < ins.len() {
                assert(out[i] == ins[i]);
            }
        }
    }
}

} // verus!
