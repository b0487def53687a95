//! Label lists used by the modifiers of aggregations and binary operations, and the
//! well-known label names used by Prometheus components.
use vstd::prelude::*;

use crate::util::text::{join_strings, spec_join, str_to_string};

pub mod label;
pub mod matcher;

verus! {

/// "__name__"
pub const METRIC_NAME: &'static str = "__name__";

/// "alertname"
pub const ALERT_NAME: &'static str = "alertname";

/// "le"
pub const BUCKET_LABEL: &'static str = "le";

/// "instance"
pub const INSTANCE_NAME: &'static str = "instance";

/// A label name.
pub type Label = String;

/// A list of label names, as written after `by`, `without`, `on`, `ignoring`,
/// `group_left` or `group_right`.
#[derive(Debug, Clone, PartialEq, Eq)]
pub struct Labels {
    pub labels: Vec<Label>,
}

impl View for Labels {
    type V = Seq<Seq<char>>;

    open spec fn view(&self) -> Seq<Seq<char>> {
        self.labels.deep_view()
    }
}

/// Whether the name lists `a` and `b` have a name in common.
pub open spec fn spec_is_joint(a: Seq<Seq<char>>, b: Seq<Seq<char>>) -> bool {
    exists|i: int, j: int| 0 <= i < a.len() && 0 <= j < b.len() && a[i] == b[j]
}

/// The names of `a` that also occur in `b`, each once, in the order of their first
/// occurrence in `a`.
pub open spec fn spec_intersect(a: Seq<Seq<char>>, b: Seq<Seq<char>>) -> Seq<Seq<char>>
    decreases a.len(),
{
    if a.len() == 0 {
        Seq::empty()
    } else {
        let r = spec_intersect(a.drop_last(), b);
        if b.contains(a.last()) && !r.contains(a.last()) {
            r.push(a.last())
        } else {
            r
        }
    }
}

/// A name that occurs in both lists occurs in their intersection.
pub proof fn lemma_intersect_contains(a: Seq<Seq<char>>, b: Seq<Seq<char>>, x: Seq<char>)
    requires
        a.contains(x),
        b.contains(x),
    ensures
        spec_intersect(a, b).contains(x),
        spec_intersect(a, b).len() > 0,
    decreases a.len(),
{
    let r = spec_intersect(a.drop_last(), b);
    if a.last() == x {
        if !r.contains(x) {
            assert(r.push(x)[r.len() as int] == x);
        }
    } else {
        let i = choose|i: int| 0 <= i < a.len() && a[i] == x;
        assert(a.drop_last()[i] == x);
        lemma_intersect_contains(a.drop_last(), b, x);
        let k = choose|k: int| 0 <= k < r.len() && r[k] == x;
        if b.contains(a.last()) && !r.contains(a.last()) {
            assert(r.push(a.last())[k] == x);
        }
    }
}

impl Labels {
    /// A copy of the names of `self`.
    pub fn copy(&self) -> (r: Labels)
        ensures
            r@ == self@,
    {
        let mut v: Vec<Label> = Vec::new();
        let mut i: usize = 0;
        while i < self.labels.len()
            invariant
                i <= self.labels.len(),
                v.deep_view() == self@.take(i as int),
            decreases self.labels.len() - i,
        {
            let ghost before = v.deep_view();
            let c = self.labels[i].clone();
            assert(c@ == self@[i as int]);
            v.push(c);
            assert(v.deep_view() =~= before.push(c@));
            i = i + 1;
            assert(v.deep_view() =~= self@.take(i as int));
        }
        assert(self@.take(self@.len() as int) =~= self@);
        Labels { labels: v }
    }

    /// `self` with `l` added at the end.
    pub fn append(self, l: Label) -> (r: Labels)
        ensures
            r@ == self@.push(l@),
    {
        let mut labels = self.labels;
        let ghost before = labels.deep_view();
        labels.push(l);
        assert(labels.deep_view() =~= before.push(l@));
        Labels { labels }
    }

    /// The list of the names `ls`, in order.
    pub fn new(ls: Vec<&str>) -> (r: Labels)
        ensures
            r@ == ls.deep_view(),
    {
        let mut labels: Vec<Label> = Vec::new();
        let mut i: usize = 0;
        while i < ls.len()
            invariant
                i <= ls.len(),
                labels.deep_view() == ls.deep_view().take(i as int),
            decreases ls.len() - i,
        {
            let ghost before = labels.deep_view();
            let c = str_to_string(ls[i]);
            labels.push(c);
            assert(labels.deep_view() =~= before.push(c@));
            i = i + 1;
            assert(labels.deep_view() =~= ls.deep_view().take(i as int));
        }
        assert(ls.deep_view().take(ls.len() as int) =~= ls.deep_view());
        Labels { labels }
    }

    pub fn is_empty(&self) -> (b: bool)
        ensures
            b == (self@.len() == 0),
    {
        self.labels.len() == 0
    }

    /// Whether `self` and `ls` have a name in common.
    pub fn is_joint(&self, ls: &Labels) -> (b: bool)
        ensures
            b == spec_is_joint(self@, ls@),
    {
        let mut i: usize = 0;
        while i < self.labels.len()
            invariant
                i <= self.labels.len(),
                forall|a: int, b: int|
                    0 <= a < i && 0 <= b < ls@.len() ==> self@[a] != ls@[b],
            decreases self.labels.len() - i,
        {
            if ls.contains(&self.labels[i]) {
                assert(self@[i as int] == self.labels[i as int]@);
                return true;
            }
            i = i + 1;
        }
        false
    }

    /// Whether `l` is one of the names of `self`.
    pub fn contains(&self, l: &Label) -> (b: bool)
        ensures
            b == self@.contains(l@),
    {
        let mut j: usize = 0;
        while j < self.labels.len()
            invariant
                j <= self.labels.len(),
                forall|b: int| 0 <= b < j ==> self@[b] != l@,
            decreases self.labels.len() - j,
        {
            if self.labels[j] == *l {
                assert(self@[j as int] == l@);
                return true;
            }
            j = j + 1;
        }
        false
    }

    /// The names that occur in both `self` and `ls`, each once, in the order of their
    /// first occurrence in `self`.
    pub fn intersect(&self, ls: &Labels) -> (r: Labels)
        ensures
            r@ == spec_intersect(self@, ls@),
            forall|x: Seq<char>| r@.contains(x) <==> (self@.contains(x) && ls@.contains(x)),
            r@.no_duplicates(),
    {
        let mut out = Labels { labels: Vec::new() };
        let mut i: usize = 0;
        while i < self.labels.len()
            invariant
                i <= self.labels.len(),
                forall|x: Seq<char>|
                    out@.contains(x) <==> (self@.take(i as int).contains(x) && ls@.contains(x)),
                out@.no_duplicates(),
                out@ == spec_intersect(self@.take(i as int), ls@),
            decreases self.labels.len() - i,
        {
            let l = &self.labels[i];
            assert(self@[i as int] == l@);
            let ghost t0 = self@.take(i as int);
            let ghost t1 = self@.take(i + 1);
            assert(t1.drop_last() =~= t0);
            assert(t1.last() == l@);
            if ls.contains(l) && !out.contains(l) {
                let ghost before = out@;
                out = out.append(l.clone());
                assert forall|x: Seq<char>| out@.contains(x) <==> (t1.contains(x)
                    && ls@.contains(x)) by {
                    assert(t1 =~= t0.push(l@));
                    if out@.contains(x) && x != l@ {
                        let k = choose|k: int| 0 <= k < out@.len() && out@[k] == x;
                        assert(before[k] == x);
                    }
                    if t1.contains(x) && x != l@ {
                        let k = choose|k: int| 0 <= k < i + 1 && t1[k] == x;
                        assert(t0[k] == x);
                    }
                    if before.contains(x) {
                        let k = choose|k: int| 0 <= k < before.len() && before[k] == x;
                        assert(out@[k] == x);
                    }
                    if t0.contains(x) {
                        let k = choose|k: int| 0 <= k < i && t0[k] == x;
                        assert(t1[k] == x);
                    }
                    if x == l@ {
                        assert(out@[out@.len() - 1] == x);
                        assert(t1[i as int] == x);
                    }
                }
            } else {
                assert forall|x: Seq<char>| out@.contains(x) <==> (t1.contains(x)
                    && ls@.contains(x)) by {
                    assert(t1 =~= t0.push(l@));
                    if t1.contains(x) && x != l@ {
                        let k = choose|k: int| 0 <= k < i + 1 && t1[k] == x;
                        assert(t0[k] == x);
                    }
                    if t0.contains(x) {
                        let k = choose|k: int| 0 <= k < i && t0[k] == x;
                        assert(t1[k] == x);
                    }
                }
            }
            i = i + 1;
        }
        assert(self@.take(self@.len() as int) =~= self@);
        out
    }

    /// The names separated by `", "`.
    pub fn to_string(&self) -> (s: String)
        ensures
            s@ == spec_join(self@, ", "@),
    {
        join_strings(&self.labels, ", ")
    }
}

} // verus!
