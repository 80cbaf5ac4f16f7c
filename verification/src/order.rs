//! Stable sorting and the order of texts.
use vstd::prelude::*;
use vstd::seq_lib::*;
use vstd::string::*;

use crate::text::chars_of;

verus! {

broadcast use vstd::string::group_string_axioms;

// ----- stable sorting -----

/// `s` with `x` put behind everything at its end that may stand before it.
pub open spec fn insert_ordered<T>(s: Seq<T>, x: T, leq: spec_fn(T, T) -> bool) -> Seq<T>
    decreases s.len(),
{
    if s.len() == 0 || leq(s.last(), x) {
        s.push(x)
    } else {
        insert_ordered(s.drop_last(), x, leq).push(s.last())
    }
}

/// The items in order; items that neither precede nor follow each other keep
/// the order that they had.
pub open spec fn sorted_by<T>(s: Seq<T>, leq: spec_fn(T, T) -> bool) -> Seq<T>
    decreases s.len(),
{
    if s.len() == 0 {
        s
    } else {
        insert_ordered(sorted_by(s.drop_last(), leq), s.last(), leq)
    }
}

/// Whether every item may stand before every later one.
pub open spec fn ordered<T>(s: Seq<T>, leq: spec_fn(T, T) -> bool) -> bool {
    forall|i: int, j: int| 0 <= i < j < s.len() ==> #[trigger] leq(s[i], s[j])
}

/// Whether a relation ranks all items.
pub open spec fn ranks<T>(leq: spec_fn(T, T) -> bool) -> bool {
    &&& forall|a: T, b: T| #[trigger] leq(a, b) || leq(b, a)
    &&& forall|a: T, b: T, c: T|
        #![trigger leq(a, b), leq(b, c)]
        leq(a, b) && leq(b, c) ==> leq(a, c)
}

pub proof fn lemma_insert_ordered<T>(s: Seq<T>, x: T, leq: spec_fn(T, T) -> bool)
    requires
        ranks(leq),
        ordered(s, leq),
    ensures
        ordered(insert_ordered(s, x, leq), leq),
        insert_ordered(s, x, leq).len() == s.len() + 1,
        insert_ordered(s, x, leq).to_multiset() =~= s.to_multiset().insert(x),
    decreases s.len(),
{
    broadcast use group_seq_properties;

    let r = insert_ordered(s, x, leq);
    if s.len() == 0 {
    } else if leq(s.last(), x) {
        assert forall|i: int, j: int| 0 <= i < j < r.len() implies #[trigger] leq(r[i], r[j]) by {
            if j == s.len() {
                if i < s.len() - 1 {
                    assert(leq(s[i], s[s.len() - 1]));
                }
            } else {
                assert(leq(s[i], s[j]));
            }
        }
    } else {
        let t = s.drop_last();
        assert forall|i: int, j: int| 0 <= i < j < t.len() implies #[trigger] leq(t[i], t[j]) by {
            assert(leq(s[i], s[j]));
        }
        lemma_insert_ordered(t, x, leq);
        let q = insert_ordered(t, x, leq);
        assert(r == q.push(s.last()));
        assert(s =~= t.push(s.last()));
        assert(leq(x, s.last()));
        assert forall|i: int, j: int| 0 <= i < j < r.len() implies #[trigger] leq(r[i], r[j]) by {
            if j == q.len() {
                assert(q.to_multiset().contains(q[i])) by {
                    assert(q.contains(q[i]));
                }
                if q[i] != x {
                    assert(t.to_multiset().contains(q[i]));
                    assert(t.contains(q[i]));
                    let k = choose|k: int| 0 <= k < t.len() && t[k] == q[i];
                    assert(leq(s[k], s[s.len() - 1]));
                }
            } else {
                assert(leq(q[i], q[j]));
            }
        }
    }
}

/// Sorting orders the items and neither loses nor invents one.
pub proof fn law_sorted_by<T>(s: Seq<T>, leq: spec_fn(T, T) -> bool)
    requires
        ranks(leq),
    ensures
        ordered(sorted_by(s, leq), leq),
        sorted_by(s, leq).len() == s.len(),
        sorted_by(s, leq).to_multiset() == s.to_multiset(),
    decreases s.len(),
{
    broadcast use group_seq_properties;

    if s.len() > 0 {
        law_sorted_by(s.drop_last(), leq);
        lemma_insert_ordered(sorted_by(s.drop_last(), leq), s.last(), leq);
        assert(s =~= s.drop_last().push(s.last()));
    }
}

/// Lists whose items are pairwise alike, for an order that cannot tell alike
/// items apart, stay pairwise alike when sorted.
pub proof fn lemma_sorted_alike<T>(
    a: Seq<T>,
    b: Seq<T>,
    leq: spec_fn(T, T) -> bool,
    alike: spec_fn(T, T) -> bool,
)
    requires
        a.len() == b.len(),
        forall|i: int| 0 <= i < a.len() ==> alike(#[trigger] a[i], b[i]),
        forall|x: T, u: T, y: T, v: T|
            #![trigger alike(x, u), alike(y, v)]
            alike(x, u) && alike(y, v) ==> leq(x, y) == leq(u, v),
    ensures
        sorted_by(a, leq).len() == sorted_by(b, leq).len() == a.len(),
        forall|i: int|
            0 <= i < a.len() ==> alike(#[trigger] sorted_by(a, leq)[i], sorted_by(b, leq)[i]),
    decreases a.len(),
{
    if a.len() > 0 {
        assert forall|i: int| 0 <= i < a.drop_last().len() implies alike(
            #[trigger] a.drop_last()[i],
            b.drop_last()[i],
        ) by {
            assert(alike(a[i], b[i]));
        }
        lemma_sorted_alike(a.drop_last(), b.drop_last(), leq, alike);
        assert(alike(a[a.len() - 1], b[a.len() - 1]));
        lemma_insert_alike(
            sorted_by(a.drop_last(), leq),
            sorted_by(b.drop_last(), leq),
            a.last(),
            b.last(),
            leq,
            alike,
        );
    }
}

proof fn lemma_insert_alike<T>(
    a: Seq<T>,
    b: Seq<T>,
    x: T,
    y: T,
    leq: spec_fn(T, T) -> bool,
    alike: spec_fn(T, T) -> bool,
)
    requires
        a.len() == b.len(),
        alike(x, y),
        forall|i: int| 0 <= i < a.len() ==> alike(#[trigger] a[i], b[i]),
        forall|x: T, u: T, y: T, v: T|
            #![trigger alike(x, u), alike(y, v)]
            alike(x, u) && alike(y, v) ==> leq(x, y) == leq(u, v),
    ensures
        insert_ordered(a, x, leq).len() == insert_ordered(b, y, leq).len() == a.len() + 1,
        forall|i: int|
            0 <= i < a.len() + 1 ==> alike(
                #[trigger] insert_ordered(a, x, leq)[i],
                insert_ordered(b, y, leq)[i],
            ),
    decreases a.len(),
{
    if a.len() > 0 {
        assert(alike(a[a.len() - 1], b[a.len() - 1]));
        if !leq(a.last(), x) {
            assert forall|i: int| 0 <= i < a.drop_last().len() implies alike(
                #[trigger] a.drop_last()[i],
                b.drop_last()[i],
            ) by {
                assert(alike(a[i], b[i]));
            }
            lemma_insert_alike(a.drop_last(), b.drop_last(), x, y, leq, alike);
        }
    }
}

proof fn lemma_insert_position<T>(s: Seq<T>, x: T, leq: spec_fn(T, T) -> bool, p: int)
    requires
        0 <= p <= s.len(),
        p > 0 ==> leq(s[p - 1], x),
        forall|i: int| p <= i < s.len() ==> !leq(#[trigger] s[i], x),
    ensures
        insert_ordered(s, x, leq) == s.insert(p, x),
    decreases s.len(),
{
    if s.len() == 0 || leq(s.last(), x) {
        assert(p == s.len());
        assert(s.insert(p, x) =~= s.push(x));
    } else {
        assert forall|i: int| p <= i < s.drop_last().len() implies !leq(
            #[trigger] s.drop_last()[i],
            x,
        ) by {
            assert(!leq(s[i], x));
        }
        lemma_insert_position(s.drop_last(), x, leq, p);
        assert(s.insert(p, x) =~= s.drop_last().insert(p, x).push(s.last()));
    }
}

/// Sorts the items with a comparison that computes `leq`.
pub fn sort_stable<T, F: Fn(&T, &T) -> bool>(
    v: Vec<T>,
    le: F,
    Ghost(leq): Ghost<spec_fn(T, T) -> bool>,
) -> (r: Vec<T>)
    requires
        forall|a: &T, b: &T| #[trigger] le.requires((a, b)),
        forall|a: &T, b: &T, c: bool| #[trigger] le.ensures((a, b), c) ==> c == leq(*a, *b),
    ensures
        r@ == sorted_by(v@, leq),
{
    let ghost all = v@;
    let mut r: Vec<T> = Vec::new();
    for x in it: v
        invariant
            it.seq() == all,
            r@ == sorted_by(all.take(it.index() as int), leq),
            forall|a: &T, b: &T| #[trigger] le.requires((a, b)),
            forall|a: &T, b: &T, c: bool| #[trigger] le.ensures((a, b), c) ==> c == leq(*a, *b),
    {
        let mut p: usize = r.len();
        while p > 0 && !le(&r[p - 1], &x)
            invariant
                p <= r@.len(),
                forall|i: int| p <= i < r@.len() ==> !leq(#[trigger] r@[i], x),
                forall|a: &T, b: &T| #[trigger] le.requires((a, b)),
                forall|a: &T, b: &T, c: bool| #[trigger] le.ensures((a, b), c) ==> c == leq(*a, *b),
            ensures
                p > 0 ==> leq(r@[p - 1], x),
            decreases p,
        {
            p -= 1;
        }
        proof {
            lemma_insert_position(r@, x, leq, p as int);
            assert(all.take(it.index() as int + 1).drop_last() =~= all.take(it.index() as int));
        }
        r.insert(p, x);
    }
    assert(all.take(all.len() as int) =~= all);
    r
}

// ----- the order of texts -----

/// Whether `a` does not stand after `b` in the dictionary order of code points.
pub open spec fn text_leq(a: Seq<char>, b: Seq<char>) -> bool
    decreases a.len(),
{
    if a.len() == 0 {
        true
    } else if b.len() == 0 {
        false
    } else if a[0] == b[0] {
        text_leq(a.drop_first(), b.drop_first())
    } else {
        a[0] < b[0]
    }
}

pub proof fn lemma_text_leq_total(a: Seq<char>, b: Seq<char>)
    ensures
        text_leq(a, b) || text_leq(b, a),
    decreases a.len(),
{
    if a.len() > 0 && b.len() > 0 && a[0] == b[0] {
        lemma_text_leq_total(a.drop_first(), b.drop_first());
    }
}

pub proof fn lemma_text_leq_transitive(a: Seq<char>, b: Seq<char>, c: Seq<char>)
    requires
        text_leq(a, b),
        text_leq(b, c),
    ensures
        text_leq(a, c),
    decreases a.len(),
{
    if a.len() > 0 && b.len() > 0 && c.len() > 0 && a[0] == b[0] && b[0] == c[0] {
        lemma_text_leq_transitive(a.drop_first(), b.drop_first(), c.drop_first());
    }
}

pub proof fn lemma_text_leq_antisymmetric(a: Seq<char>, b: Seq<char>)
    requires
        text_leq(a, b),
        text_leq(b, a),
    ensures
        a == b,
    decreases a.len(),
{
    if a.len() > 0 && b.len() > 0 {
        assert(a[0] == b[0]);
        let x = a.drop_first();
        let y = b.drop_first();
        lemma_text_leq_antisymmetric(x, y);
        assert forall|i: int| 0 <= i < a.len() implies #[trigger] a[i] == b[i] by {
            if i > 0 {
                assert(a[i] == x[i - 1] && b[i] == y[i - 1]);
            }
        }
        assert(a.len() == x.len() + 1 && b.len() == y.len() + 1);
        assert(a =~= b);
    } else {
        assert(a.len() == 0 && b.len() == 0);
        assert(a =~= b);
    }
}

/// Whether `a` does not stand after `b` in the dictionary order of code points.
pub fn text_le(a: &str, b: &str) -> (r: bool)
    ensures
        r == text_leq(a@, b@),
{
    let x = chars_of(a);
    let y = chars_of(b);
    let mut i: usize = 0;
    assert(x@.subrange(0, x@.len() as int) =~= a@);
    assert(y@.subrange(0, y@.len() as int) =~= b@);
    while i < x.len() && i < y.len()
        invariant
            i <= x@.len(),
            i <= y@.len(),
            text_leq(a@, b@) == text_leq(
                x@.subrange(i as int, x@.len() as int),
                y@.subrange(i as int, y@.len() as int),
            ),
        decreases x@.len() - i,
    {
        let ghost p = x@.subrange(i as int, x@.len() as int);
        let ghost q = y@.subrange(i as int, y@.len() as int);
        if x[i] != y[i] {
            assert(p[0] == x@[i as int] && q[0] == y@[i as int]);
            return x[i] < y[i];
        }
        assert(p.drop_first() =~= x@.subrange(i + 1, x@.len() as int));
        assert(q.drop_first() =~= y@.subrange(i + 1, y@.len() as int));
        i += 1;
    }
    i == x.len()
}

} // verus!
