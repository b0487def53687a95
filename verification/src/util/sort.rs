//! Sorting of texts in the order of `String`'s `Ord` (code point by code point).
use vstd::prelude::*;

use crate::util::text::str_to_chars;
use vstd::relations::{sorted_by, total_ordering};

verus! {

/// Whether `a` comes strictly before `b`: compared char by char, a proper prefix first.
pub open spec fn spec_lex_lt(a: Seq<char>, b: Seq<char>) -> bool
    decreases a.len(),
{
    if a.len() == 0 {
        b.len() > 0
    } else if b.len() == 0 {
        false
    } else if a[0] != b[0] {
        a[0] < b[0]
    } else {
        spec_lex_lt(a.drop_first(), b.drop_first())
    }
}

/// Whether `a` does not come after `b`.
pub open spec fn spec_lex_le(a: Seq<char>, b: Seq<char>) -> bool {
    !spec_lex_lt(b, a)
}

/// `s` with `x` placed before its first item that `x` does not come after.
pub open spec fn spec_insert_sorted(x: Seq<char>, s: Seq<Seq<char>>) -> Seq<Seq<char>>
    decreases s.len(),
{
    if s.len() == 0 {
        seq![x]
    } else if spec_lex_le(x, s[0]) {
        seq![x] + s
    } else {
        seq![s[0]] + spec_insert_sorted(x, s.drop_first())
    }
}

/// The texts of `s` in ascending order.
pub open spec fn spec_sort(s: Seq<Seq<char>>) -> Seq<Seq<char>>
    decreases s.len(),
{
    if s.len() == 0 {
        Seq::empty()
    } else {
        spec_insert_sorted(s.last(), spec_sort(s.drop_last()))
    }
}

/// Whether `a` comes strictly before `b`.
pub fn lex_lt(a: &str, b: &str) -> (r: bool)
    ensures
        r == spec_lex_lt(a@, b@),
{
    let x = str_to_chars(a);
    let y = str_to_chars(b);
    let mut i: usize = 0;
    assert(a@.skip(0) =~= a@);
    assert(b@.skip(0) =~= b@);
    while i < x.len() && i < y.len()
        invariant
            i <= x.len(),
            i <= y.len(),
            x@ == a@,
            y@ == b@,
            spec_lex_lt(a@, b@) == spec_lex_lt(a@.skip(i as int), b@.skip(i as int)),
        decreases x.len() - i,
    {
        let ghost xs = a@.skip(i as int);
        let ghost ys = b@.skip(i as int);
        assert(xs[0] == x@[i as int]);
        assert(ys[0] == y@[i as int]);
        if x[i] != y[i] {
            assert(spec_lex_lt(xs, ys) == (xs[0] < ys[0]));
            return x[i] < y[i];
        }
        assert(spec_lex_lt(xs, ys) == spec_lex_lt(xs.drop_first(), ys.drop_first()));
        assert(xs.drop_first() =~= a@.skip(i + 1));
        assert(ys.drop_first() =~= b@.skip(i + 1));
        i = i + 1;
    }
    let ghost xs = a@.skip(i as int);
    let ghost ys = b@.skip(i as int);
    assert(xs.len() == 0 || ys.len() == 0);
    assert(spec_lex_lt(xs, ys) == (xs.len() == 0 && ys.len() > 0));
    i >= x.len() && i < y.len()
}

/// If `p` is the first index of `s` whose text `x` does not come after, inserting `x`
/// puts it at `p`.
proof fn lemma_insert_at(x: Seq<char>, s: Seq<Seq<char>>, p: int)
    requires
        0 <= p <= s.len(),
        forall|k: int| 0 <= k < p ==> !spec_lex_le(x, #[trigger] s[k]),
        p < s.len() ==> spec_lex_le(x, s[p]),
    ensures
        spec_insert_sorted(x, s) == s.take(p) + seq![x] + s.skip(p),
    decreases s.len(),
{
    if s.len() == 0 {
        assert(s.take(p) + seq![x] + s.skip(p) =~= seq![x]);
    } else if p == 0 {
        assert(s.take(p) + seq![x] + s.skip(p) =~= seq![x] + s);
    } else {
        let t = s.drop_first();
        assert forall|k: int| 0 <= k < p - 1 implies !spec_lex_le(x, #[trigger] t[k]) by {
            assert(t[k] == s[k + 1]);
        }
        if p - 1 < t.len() {
            assert(t[p - 1] == s[p]);
        }
        lemma_insert_at(x, t, p - 1);
        assert(!spec_lex_le(x, s[0]));
        assert(seq![s[0]] + (t.take(p - 1) + seq![x] + t.skip(p - 1)) =~= s.take(p) + seq![x]
            + s.skip(p));
    }
}

/// Inserts `x` into the sorted texts `r`, before the first one it does not come after.
fn insert_sorted(r: &mut Vec<String>, x: String)
    ensures
        final(r).deep_view() == spec_insert_sorted(x@, old(r).deep_view()),
{
    let ghost s = r.deep_view();
    let mut p: usize = 0;
    while p < r.len()
        invariant
            p <= r.len(),
            s == r.deep_view(),
            forall|k: int| 0 <= k < p ==> !spec_lex_le(x@, #[trigger] s[k]),
        ensures
            p <= r.len(),
            s == r.deep_view(),
            forall|k: int| 0 <= k < p ==> !spec_lex_le(x@, #[trigger] s[k]),
            p < r.len() ==> spec_lex_le(x@, s[p as int]),
        decreases r.len() - p,
    {
        assert(s[p as int] == r@[p as int]@);
        if !lex_lt(r[p].as_str(), x.as_str()) {
            break;
        }
        p = p + 1;
    }
    proof {
        lemma_insert_at(x@, s, p as int);
    }
    r.insert(p, x);
    assert(r.deep_view() =~= s.take(p as int) + seq![x@] + s.skip(p as int));
}

/// The texts of `v` in ascending order.
pub fn sort_strings(v: Vec<String>) -> (r: Vec<String>)
    ensures
        r.deep_view() == spec_sort(v.deep_view()),
{
    let ghost dv = v.deep_view();
    let mut r: Vec<String> = Vec::new();
    let mut rest = v;
    let mut i: usize = 0;
    let n = rest.len();
    // Walk `v` from its first text; `rest` is consumed from the back, so reverse it first.
    let mut rev: Vec<String> = Vec::new();
    while rest.len() > 0
        invariant
            rev.len() + rest.len() == n,
            n == dv.len(),
            forall|k: int| 0 <= k < rest.len() ==> #[trigger] rest@[k]@ == dv[k],
            forall|k: int| 0 <= k < rev.len() ==> #[trigger] rev@[k]@ == dv[n - 1 - k],
        decreases rest.len(),
    {
        let x = rest.pop().unwrap();
        rev.push(x);
    }
    while rev.len() > 0
        invariant
            i + rev.len() == n,
            n == dv.len(),
            forall|k: int| 0 <= k < rev.len() ==> #[trigger] rev@[k]@ == dv[n - 1 - k],
            r.deep_view() == spec_sort(dv.take(i as int)),
        decreases rev.len(),
    {
        let x = rev.pop().unwrap();
        assert(x@ == dv[i as int]);
        let ghost t = dv.take(i + 1);
        assert(t.drop_last() =~= dv.take(i as int));
        assert(t.last() == x@);
        insert_sorted(&mut r, x);
        i = i + 1;
    }
    assert(dv.take(n as int) =~= dv);
    r
}


// ---------------------------------------------------------------------------------------
// The order of texts and what sorting gives
// ---------------------------------------------------------------------------------------
proof fn lemma_lex_irreflexive(a: Seq<char>)
    ensures
        !spec_lex_lt(a, a),
    decreases a.len(),
{
    if a.len() > 0 {
        lemma_lex_irreflexive(a.drop_first());
    }
}

proof fn lemma_lex_transitive(a: Seq<char>, b: Seq<char>, c: Seq<char>)
    requires
        spec_lex_lt(a, b),
        spec_lex_lt(b, c),
    ensures
        spec_lex_lt(a, c),
    decreases a.len(),
{
    if a.len() > 0 && b.len() > 0 && c.len() > 0 && a[0] == b[0] && b[0] == c[0] {
        lemma_lex_transitive(a.drop_first(), b.drop_first(), c.drop_first());
    }
}

proof fn lemma_lex_connected(a: Seq<char>, b: Seq<char>)
    ensures
        a == b || spec_lex_lt(a, b) || spec_lex_lt(b, a),
    decreases a.len(),
{
    if a.len() > 0 && b.len() > 0 && a[0] == b[0] {
        lemma_lex_connected(a.drop_first(), b.drop_first());
        if a.drop_first() == b.drop_first() {
            assert(a =~= seq![a[0]] + a.drop_first());
            assert(b =~= seq![b[0]] + b.drop_first());
        }
    } else if a.len() == 0 && b.len() == 0 {
        assert(a =~= b);
    } else if a.len() > 0 && b.len() > 0 {

    }
}

proof fn lemma_lex_asymmetric(a: Seq<char>, b: Seq<char>)
    requires
        spec_lex_lt(a, b),
    ensures
        !spec_lex_lt(b, a),
{
    if spec_lex_lt(b, a) {
        lemma_lex_transitive(a, b, a);
        lemma_lex_irreflexive(a);
    }
}

/// The order of texts as a relation.
pub open spec fn lex_le() -> spec_fn(Seq<char>, Seq<char>) -> bool {
    |a: Seq<char>, b: Seq<char>| spec_lex_le(a, b)
}

/// `spec_lex_le` is a total order.
pub proof fn lemma_lex_le_total_ordering()
    ensures
        total_ordering(lex_le()),
{
    let le = lex_le();
    assert forall|a: Seq<char>| #[trigger] le(a, a) by {
        lemma_lex_irreflexive(a);
    }
    assert forall|a: Seq<char>, b: Seq<char>| #[trigger] le(a, b) && #[trigger] le(b, a) implies a
        == b by {
        lemma_lex_connected(a, b);
    }
    assert forall|a: Seq<char>, b: Seq<char>, c: Seq<char>| #[trigger] le(a, b) && #[trigger] le(
        b,
        c,
    ) implies le(a, c) by {
        if spec_lex_lt(c, a) {
            lemma_lex_connected(a, b);
            lemma_lex_connected(b, c);
            if spec_lex_lt(a, b) {
                lemma_lex_transitive(c, a, b);
            }
            if a == b && spec_lex_lt(b, c) {
                lemma_lex_asymmetric(b, c);
            }
            if spec_lex_lt(a, b) && spec_lex_lt(b, c) {
                lemma_lex_transitive(a, b, c);
                lemma_lex_asymmetric(a, c);
            }
        }
    }
    assert forall|a: Seq<char>, b: Seq<char>| #[trigger] le(a, b) || #[trigger] le(b, a) by {
        if spec_lex_lt(b, a) {
            lemma_lex_asymmetric(b, a);
        }
    }
}

/// Inserting into a sorted sequence keeps it sorted and adds the text once.
proof fn lemma_insert_sorted_ensures(x: Seq<char>, s: Seq<Seq<char>>)
    requires
        sorted_by(s, lex_le()),
    ensures
        sorted_by(spec_insert_sorted(x, s), lex_le()),
        spec_insert_sorted(x, s).to_multiset() == s.to_multiset().insert(x),
    decreases s.len(),
{
    broadcast use vstd::seq_lib::group_to_multiset_ensures, vstd::multiset::group_multiset_axioms;

    let le = lex_le();
    lemma_lex_le_total_ordering();
    let r = spec_insert_sorted(x, s);
    if s.len() == 0 {
        assert(r.to_multiset() =~= s.to_multiset().insert(x)) by {
            assert(r =~= Seq::<Seq<char>>::empty().push(x));
            assert(s =~= Seq::<Seq<char>>::empty());
        }
    } else if spec_lex_le(x, s[0]) {
        assert forall|i: int, j: int| 0 <= i < j < r.len() implies #[trigger] le(r[i], r[j]) by {
            assert(r[j] == s[j - 1]);
            if i > 0 {
                assert(r[i] == s[i - 1]);
                assert(le(s[i - 1], s[j - 1]));
            } else {
                assert(r[0] == x);
                assert(le(x, s[0]));
                if j - 1 > 0 {
                    assert(le(s[0], s[j - 1]));
                }
            }
        }
        assert(r.to_multiset() =~= s.to_multiset().insert(x)) by {
            vstd::seq_lib::lemma_multiset_commutative(seq![x], s);
            assert(seq![x].to_multiset() =~= Seq::<Seq<char>>::empty().push(x).to_multiset());
            assert(Seq::<Seq<char>>::empty().to_multiset() =~= vstd::multiset::Multiset::empty());
        }
    } else {
        let t = s.drop_first();
        assert forall|i: int, j: int| 0 <= i < j < t.len() implies #[trigger] le(t[i], t[j]) by {
            assert(le(s[i + 1], s[j + 1]));
        }
        lemma_insert_sorted_ensures(x, t);
        let rt = spec_insert_sorted(x, t);
        assert(rt.to_multiset() == t.to_multiset().insert(x));
        assert forall|k: int| 0 <= k < rt.len() implies #[trigger] le(s[0], rt[k]) by {
            assert(rt.to_multiset().count(rt[k]) > 0);
            assert(t.to_multiset().insert(x).count(rt[k]) > 0);
            if rt[k] != x {
                assert(t.to_multiset().count(rt[k]) > 0);
                assert(t.contains(rt[k]));
                let m = choose|m: int| 0 <= m < t.len() && t[m] == rt[k];
                assert(le(s[0], s[m + 1]));
            } else {
                assert(le(x, s[0]) || le(s[0], x));
            }
        }
        assert forall|i: int, j: int| 0 <= i < j < r.len() implies #[trigger] le(r[i], r[j]) by {
            if i > 0 {
                assert(r[i] == rt[i - 1]);
                assert(r[j] == rt[j - 1]);
            } else {
                assert(r[j] == rt[j - 1]);
            }
        }
        assert(r.to_multiset() =~= s.to_multiset().insert(x)) by {
            vstd::seq_lib::lemma_multiset_commutative(seq![s[0]], rt);
            vstd::seq_lib::lemma_multiset_commutative(seq![s[0]], t);
            assert(seq![s[0]] + t =~= s);
        }
    }
}

/// Sorting gives the texts of `s` in ascending order.
proof fn lemma_sort_ensures(s: Seq<Seq<char>>)
    ensures
        sorted_by(spec_sort(s), lex_le()),
        spec_sort(s).to_multiset() == s.to_multiset(),
    decreases s.len(),
{
    broadcast use vstd::seq_lib::group_to_multiset_ensures;

    if s.len() == 0 {
        assert(spec_sort(s) =~= s);
    } else {
        lemma_sort_ensures(s.drop_last());
        lemma_insert_sorted_ensures(s.last(), spec_sort(s.drop_last()));
        assert(s.drop_last().push(s.last()) =~= s);
    }
}

/// Sorting gives the same result for any order of the same texts.
pub proof fn lemma_sort_order_independent(s1: Seq<Seq<char>>, s2: Seq<Seq<char>>)
    requires
        s1.to_multiset() == s2.to_multiset(),
    ensures
        spec_sort(s1) == spec_sort(s2),
{
    lemma_sort_ensures(s1);
    lemma_sort_ensures(s2);
    lemma_lex_le_total_ordering();
    vstd::seq_lib::lemma_sorted_unique(
        spec_sort(s1),
        spec_sort(s2),
        lex_le(),
    );
}

} // verus!
