//! Labels as name/value pairs, and the selection of labels by name.
use vstd::prelude::*;

use crate::util::text::{eq_ignore_ascii_case, spec_ascii_lowercase};

verus! {

/// "__name__"
pub const METRIC_NAME: &'static str = "__name__";

/// "alertname"
pub const ALERT_NAME: &'static str = "alertname";

/// "le"
pub const BUCKET_LABEL: &'static str = "le";

/// "instance"
pub const INSTANCE_NAME: &'static str = "instance";

/// A label: a name with its value.
#[derive(Debug, Clone, PartialEq, Eq)]
pub struct Label {
    pub name: String,
    pub value: String,
}

impl View for Label {
    type V = (Seq<char>, Seq<char>);

    open spec fn view(&self) -> (Seq<char>, Seq<char>) {
        (self.name@, self.value@)
    }
}

impl Label {
    pub fn new(name: String, value: String) -> (l: Label)
        ensures
            l@ == (name@, value@),
    {
        Label { name, value }
    }

    fn copy(&self) -> (l: Label)
        ensures
            l@ == self@,
    {
        Label { name: self.name.clone(), value: self.value.clone() }
    }
}

/// A list of labels.
pub struct Labels {
    pub labels: Vec<Label>,
}

impl View for Labels {
    type V = Seq<(Seq<char>, Seq<char>)>;

    open spec fn view(&self) -> Seq<(Seq<char>, Seq<char>)> {
        self.labels@.map_values(|l: Label| l@)
    }
}

/// Whether the label `l` is kept by a selection with `on` and the names `names`: with
/// `on`, the labels named in `names`; without it, the others, but never the metric name
/// (compared without ASCII case).
pub open spec fn keeps_label(l: (Seq<char>, Seq<char>), on: bool, names: Seq<Seq<char>>) -> bool {
    on == names.contains(l.0) && (on || spec_ascii_lowercase(l.0) != spec_ascii_lowercase(
        METRIC_NAME@,
    ))
}

/// The labels of `ls` that `keeps_label` keeps, in order.
pub open spec fn spec_match_labels(ls: Seq<(Seq<char>, Seq<char>)>, on: bool, names: Seq<Seq<char>>) -> Seq<
    (Seq<char>, Seq<char>),
>
    decreases ls.len(),
{
    if ls.len() == 0 {
        Seq::empty()
    } else {
        let rest = spec_match_labels(ls.drop_last(), on, names);
        if keeps_label(ls.last(), on, names) {
            rest.push(ls.last())
        } else {
            rest
        }
    }
}

/// Selecting labels keeps labels of `ls` only. With `on`, it keeps exactly those whose
/// names are in `names`. Without `on`, it keeps exactly those whose names are not, except
/// that the metric name (in any ASCII case) is never kept.
pub proof fn lemma_match_labels_selects(
    ls: Seq<(Seq<char>, Seq<char>)>,
    on: bool,
    names: Seq<Seq<char>>,
)
    ensures
        forall|x| #[trigger] spec_match_labels(ls, on, names).contains(x) ==> ls.contains(x),
        on ==> forall|x| #[trigger] spec_match_labels(ls, on, names).contains(x) <==> ls.contains(x)
            && names.contains(x.0),
        !on ==> forall|x| #[trigger] spec_match_labels(ls, on, names).contains(x) <==> ls.contains(x)
            && !names.contains(x.0) && spec_ascii_lowercase(x.0) != spec_ascii_lowercase(
            "__name__"@,
        ),
    decreases ls.len(),
{
    if ls.len() > 0 {
        lemma_match_labels_selects(ls.drop_last(), on, names);
        let rest = spec_match_labels(ls.drop_last(), on, names);
        assert forall|x| #[trigger] ls.contains(x) <==> ls.drop_last().contains(x) || x == ls.last() by {
            if ls.contains(x) {
                let i = choose|i: int| 0 <= i < ls.len() && ls[i] == x;
                if i < ls.len() - 1 {
                    assert(ls.drop_last()[i] == x);
                }
            }
            if ls.drop_last().contains(x) {
                let i = choose|i: int| 0 <= i < ls.drop_last().len() && ls.drop_last()[i] == x;
                assert(ls[i] == x);
            }
            if x == ls.last() {
                assert(ls[ls.len() - 1] == x);
            }
        }
        assert forall|x| #[trigger] rest.push(ls.last()).contains(x) <==> rest.contains(x) || x
            == ls.last() by {
            if rest.push(ls.last()).contains(x) {
                let i = choose|i: int| 0 <= i < rest.len() + 1 && rest.push(ls.last())[i] == x;
                if i < rest.len() {
                    assert(rest[i] == x);
                }
            }
            if rest.contains(x) {
                let i = choose|i: int| 0 <= i < rest.len() && rest[i] == x;
                assert(rest.push(ls.last())[i] == x);
            }
            if x == ls.last() {
                assert(rest.push(ls.last())[rest.len() as int] == x);
            }
        }
        reveal_strlit("__name__");
        assert(METRIC_NAME@ == "__name__"@);
    }
}

impl Labels {
    pub fn empty() -> (r: Labels)
        ensures
            r@.len() == 0,
    {
        Labels { labels: Vec::new() }
    }

    pub fn new(labels: Vec<Label>) -> (r: Labels)
        ensures
            r.labels@ == labels@,
    {
        Labels { labels }
    }

    /// `self` with `label` added at the end.
    pub fn append(self, label: Label) -> (r: Labels)
        ensures
            r.labels@ == self.labels@.push(label),
    {
        let mut labels = self.labels;
        labels.push(label);
        Labels { labels }
    }

    /// With `on`, the labels whose names are in `names`; without `on`, the labels whose
    /// names are not, leaving out the metric name.
    pub fn match_labels(&self, on: bool, names: Vec<String>) -> (r: Vec<Label>)
        ensures
            r@.map_values(|l: Label| l@) == spec_match_labels(self@, on, names.deep_view()),
    {
        let mut result: Vec<Label> = Vec::new();
        let mut i: usize = 0;
        while i < self.labels.len()
            invariant
                i <= self.labels.len(),
                result@.map_values(|l: Label| l@) == spec_match_labels(
                    self@.take(i as int),
                    on,
                    names.deep_view(),
                ),
            decreases self.labels.len() - i,
        {
            let label = &self.labels[i];
            let contains = names_contain(&names, &label.name);
            let ghost before = result@.map_values(|l: Label| l@);
            assert(self@.take(i + 1).drop_last() =~= self@.take(i as int));
            assert(self@.take(i + 1).last() == label@);
            if on == contains && (on || !eq_ignore_ascii_case(label.name.as_str(), METRIC_NAME)) {
                result.push(label.copy());
                assert(result@.map_values(|l: Label| l@) =~= before.push(label@));
            }
            i = i + 1;
        }
        assert(self@.take(self@.len() as int) =~= self@);
        result
    }
}

fn names_contain(names: &Vec<String>, name: &String) -> (b: bool)
    ensures
        b == names.deep_view().contains(name@),
{
    let mut j: usize = 0;
    while j < names.len()
        invariant
            j <= names.len(),
            forall|k: int| 0 <= k < j ==> names.deep_view()[k] != name@,
        decreases names.len() - j,
    {
        if names[j] == *name {
            assert(names.deep_view()[j as int] == name@);
            return true;
        }
        j = j + 1;
    }
    false
}

} // verus!
