//! Label matchers of vector selectors: `name="v"`, `name!="v"`, `name=~"re"`, `name!~"re"`.
use vstd::prelude::*;

use crate::parser::token::{TokenId, T_EQL, T_EQL_REGEX, T_NEQ, T_NEQ_REGEX};
use crate::util::sort::{lemma_sort_order_independent, sort_strings, spec_sort};
use crate::util::text::{
    append_decimal, append_str, join_strings, spec_decimal_string, spec_join, str_eq,
    str_to_string,
};

verus! {

#[verifier::external_type_specification]
#[verifier::external_body]
pub struct ExRegex(regex::Regex);

#[verifier::external_type_specification]
#[verifier::external_body]
pub struct ExRegexError(regex::Error);

/// Trusted: `Clone` of `regex::Regex`; nothing is claimed of the copy.
pub assume_specification[ <regex::Regex as Clone>::clone ](r: &regex::Regex) -> regex::Regex;

/// Whether `regex::Regex::new` accepts the pattern.
pub uninterp spec fn regex_accepts(pattern: Seq<char>) -> bool;

/// Whether the regex compiled from `pattern` matches somewhere in `haystack`.
pub uninterp spec fn regex_is_match(pattern: Seq<char>, haystack: Seq<char>) -> bool;

/// Compiles `pattern`.
///
/// Trusted: calls `regex::Regex::new`, which fails on a pattern that does not parse
/// or whose compiled form is over the default size limit, and is a function of the
/// pattern alone; the contract names that outcome `regex_accepts`.
#[verifier::external_body]
fn compile_regex(pattern: &str) -> (r: Result<regex::Regex, regex::Error>)
    ensures
        r is Ok <==> regex_accepts(pattern@),
{
    regex::Regex::new(pattern)
}

/// A regular expression together with the pattern it was compiled from.
#[derive(Debug, Clone)]
pub struct Pattern {
    source: String,
    re: regex::Regex,
}

impl View for Pattern {
    type V = Seq<char>;

    closed spec fn view(&self) -> Seq<char> {
        self.source@
    }
}

/// Whether the compiled regex of `p` matches somewhere in `haystack`.
///
/// Trusted: calls `regex::Regex::is_match` on the regex that `Pattern::new` compiled from
/// the pattern `p@` (the fields are private and set there only); its result depends
/// on the pattern and the haystack alone.
#[verifier::external_body]
fn pattern_is_match(p: &Pattern, haystack: &str) -> (b: bool)
    ensures
        b == regex_is_match(p@, haystack@),
{
    p.re.is_match(haystack)
}

impl Pattern {
    /// The pattern compiled, or `None` where the regex engine refuses it.
    pub fn new(source: &str) -> (r: Option<Pattern>)
        ensures
            r is Some <==> regex_accepts(source@),
            r matches Some(p) ==> p@ == source@,
    {
        match compile_regex(source) {
            Ok(re) => Some(Pattern { source: str_to_string(source), re }),
            Err(_) => None,
        }
    }

    /// The pattern text.
    pub fn as_str(&self) -> (s: &str)
        ensures
            s@ == self@,
    {
        self.source.as_str()
    }

    /// Whether the regex matches somewhere in `s`.
    pub fn is_match(&self, s: &str) -> (b: bool)
        ensures
            b == regex_is_match(self@, s@),
    {
        pattern_is_match(self, s)
    }
}

impl PartialEq for Pattern {
    fn eq(&self, other: &Self) -> (b: bool) {
        str_eq(self.source.as_str(), other.source.as_str())
    }
}

impl vstd::std_specs::cmp::PartialEqSpecImpl for Pattern {
    open spec fn obeys_eq_spec() -> bool {
        true
    }

    open spec fn eq_spec(&self, other: &Self) -> bool {
        self@ == other@
    }
}

impl Eq for Pattern {}

/// The operator of a label matcher; two regex operators are equal when their
/// patterns are.
#[derive(Debug, Clone, PartialEq, Eq)]
pub enum MatchOp {
    Equal,
    NotEqual,
    Re(Pattern),
    NotRe(Pattern),
}

/// The text of a match operator.
pub open spec fn spec_op_text(op: MatchOp) -> Seq<char> {
    match op {
        MatchOp::Equal => "="@,
        MatchOp::NotEqual => "!="@,
        MatchOp::Re(_) => "=~"@,
        MatchOp::NotRe(_) => "!~"@,
    }
}

impl MatchOp {
    pub fn to_string(&self) -> (s: String)
        ensures
            s@ == spec_op_text(*self),
    {
        match self {
            MatchOp::Equal => str_to_string("="),
            MatchOp::NotEqual => str_to_string("!="),
            MatchOp::Re(_) => str_to_string("=~"),
            MatchOp::NotRe(_) => str_to_string("!~"),
        }
    }
}

/// The matching of one label.
#[derive(Debug, Clone, PartialEq, Eq)]
pub struct Matcher {
    pub op: MatchOp,
    pub name: String,
    pub value: String,
}

/// Whether a matcher with operator `op` and value `value` matches the label value `s`.
pub open spec fn spec_is_match(op: MatchOp, value: Seq<char>, s: Seq<char>) -> bool {
    match op {
        MatchOp::Equal => value == s,
        MatchOp::NotEqual => value != s,
        MatchOp::Re(p) => regex_is_match(p@, s),
        MatchOp::NotRe(p) => !regex_is_match(p@, s),
    }
}

/// The text of a matcher: `name`, operator, then the value in double quotes.
pub open spec fn spec_matcher_text(m: Matcher) -> Seq<char> {
    m.name@ + spec_op_text(m.op) + "\""@ + m.value@ + "\""@
}

/// The match operator of a token, if the token is one.
pub open spec fn spec_match_op_token(id: TokenId) -> bool {
    id == T_EQL || id == T_NEQ || id == T_EQL_REGEX || id == T_NEQ_REGEX
}

impl Matcher {
    pub fn new(op: MatchOp, name: &str, value: &str) -> (m: Matcher)
        ensures
            m.op == op,
            m.name@ == name@,
            m.value@ == value@,
    {
        Matcher { op, name: str_to_string(name), value: str_to_string(value) }
    }

    /// Whether the matcher matches the given label value.
    pub fn is_match(&self, s: &str) -> (b: bool)
        ensures
            b == spec_is_match(self.op, self.value@, s@),
    {
        match &self.op {
            MatchOp::Equal => str_eq(self.value.as_str(), s),
            MatchOp::NotEqual => !str_eq(self.value.as_str(), s),
            MatchOp::Re(r) => r.is_match(s),
            MatchOp::NotRe(r) => !r.is_match(s),
        }
    }

    /// The matcher of the token `id` (`=`, `!=`, `=~`, `!~`); for the regex operators
    /// `value` is compiled as the pattern.
    pub fn new_matcher(id: TokenId, name: String, value: String) -> (r: Result<Matcher, String>)
        ensures
            r is Ok <==> (spec_match_op_token(id) && ((id == T_EQL_REGEX || id == T_NEQ_REGEX)
                ==> regex_accepts(value@))),
            r matches Ok(m) ==> {
                &&& m.name == name
                &&& m.value == value
                &&& id == T_EQL ==> m.op == MatchOp::Equal
                &&& id == T_NEQ ==> m.op == MatchOp::NotEqual
                &&& id == T_EQL_REGEX ==> (m.op matches MatchOp::Re(p) && p@ == value@)
                &&& id == T_NEQ_REGEX ==> (m.op matches MatchOp::NotRe(p) && p@ == value@)
            },
            r matches Err(e) ==> e@ == (if spec_match_op_token(id) {
                "illegal regex for "@ + value@
            } else {
                "invalid match op "@ + spec_decimal_string(id as nat)
            }),
    {
        if id == T_EQL {
            Ok(Matcher { op: MatchOp::Equal, name, value })
        } else if id == T_NEQ {
            Ok(Matcher { op: MatchOp::NotEqual, name, value })
        } else if id == T_EQL_REGEX || id == T_NEQ_REGEX {
            match Pattern::new(value.as_str()) {
                Some(p) => {
                    let op = if id == T_EQL_REGEX {
                        MatchOp::Re(p)
                    } else {
                        MatchOp::NotRe(p)
                    };
                    Ok(Matcher { op, name, value })
                },
                None => {
                    let mut e = str_to_string("illegal regex for ");
                    append_str(&mut e, value.as_str());
                    Err(e)
                },
            }
        } else {
            let mut e = str_to_string("invalid match op ");
            append_decimal(&mut e, id as u128);
            Err(e)
        }
    }

    pub fn to_string(&self) -> (s: String)
        ensures
            s@ == spec_matcher_text(*self),
    {
        let mut s = str_to_string(self.name.as_str());
        let op = self.op.to_string();
        append_str(&mut s, op.as_str());
        append_str(&mut s, "\"");
        append_str(&mut s, self.value.as_str());
        append_str(&mut s, "\"");
        s
    }
}

/// The matchers of a vector selector.
#[derive(Debug, Clone, PartialEq, Eq)]
pub struct Matchers {
    pub matchers: Vec<Matcher>,
}

/// Whether every matcher of `ms` matches the empty label value (or there is none).
pub open spec fn spec_is_empty_matchers(ms: Seq<Matcher>) -> bool {
    forall|i: int| 0 <= i < ms.len() ==> spec_is_match(#[trigger] ms[i].op, ms[i].value@, Seq::empty())
}

/// The value of the first matcher of `ms`, from index `i` on, whose name is `name`.
pub open spec fn spec_find_matcher(ms: Seq<Matcher>, name: Seq<char>, i: int) -> Option<Seq<char>>
    decreases ms.len() - i,
{
    if i < 0 || i >= ms.len() {
        None
    } else if ms[i].name@ == name {
        Some(ms[i].value@)
    } else {
        spec_find_matcher(ms, name, i + 1)
    }
}

/// The texts of the matchers, in the order of the list.
pub open spec fn spec_matcher_texts(ms: Seq<Matcher>) -> Seq<Seq<char>> {
    Seq::new(ms.len(), |i: int| spec_matcher_text(ms[i]))
}

/// The text of a matcher list: the matcher texts in ascending order, joined by `,`.
pub open spec fn spec_matchers_text(ms: Seq<Matcher>) -> Seq<char> {
    spec_join(spec_sort(spec_matcher_texts(ms)), ","@)
}

impl Matchers {
    pub fn empty() -> (r: Matchers)
        ensures
            r.matchers@ == Seq::<Matcher>::empty(),
    {
        Matchers { matchers: Vec::new() }
    }

    pub fn one(matcher: Matcher) -> (r: Matchers)
        ensures
            r.matchers@ == seq![matcher],
    {
        let mut v = Vec::new();
        v.push(matcher);
        Matchers { matchers: v }
    }

    pub fn new(matchers: Vec<Matcher>) -> (r: Matchers)
        ensures
            r.matchers == matchers,
    {
        Matchers { matchers }
    }

    pub fn append(self, matcher: Matcher) -> (r: Matchers)
        ensures
            r.matchers@ == self.matchers@.push(matcher),
    {
        let mut v = self.matchers;
        v.push(matcher);
        Matchers { matchers: v }
    }

    /// Whether the matchers select everything: a vector selector must either name a
    /// metric or hold a matcher that does not match the empty label value.
    pub fn is_empty_matchers(&self) -> (b: bool)
        ensures
            b == spec_is_empty_matchers(self.matchers@),
    {
        let mut i: usize = 0;
        while i < self.matchers.len()
            invariant
                i <= self.matchers.len(),
                forall|k: int| 0 <= k < i ==> spec_is_match(
                    #[trigger] self.matchers@[k].op,
                    self.matchers@[k].value@,
                    Seq::empty(),
                ),
            decreases self.matchers.len() - i,
        {
            let m = &self.matchers[i];
            let e = "";
            proof {
                reveal_strlit("");
            }
            if !m.is_match(e) {
                assert(e@ =~= Seq::<char>::empty());
                return false;
            }
            assert(e@ =~= Seq::<char>::empty());
            i = i + 1;
        }
        true
    }

    /// The value of the first matcher whose label name is `name`.
    pub fn find_matcher(&self, name: &str) -> (r: Option<String>)
        ensures
            match spec_find_matcher(self.matchers@, name@, 0) {
                Some(v) => r matches Some(x) && x@ == v,
                None => r is None,
            },
    {
        let mut i: usize = 0;
        while i < self.matchers.len()
            invariant
                i <= self.matchers.len(),
                spec_find_matcher(self.matchers@, name@, 0) == spec_find_matcher(
                    self.matchers@,
                    name@,
                    i as int,
                ),
            decreases self.matchers.len() - i,
        {
            if str_eq(self.matchers[i].name.as_str(), name) {
                return Some(str_to_string(self.matchers[i].value.as_str()));
            }
            i = i + 1;
        }
        None
    }

    /// The matcher texts in ascending order, joined by `,`.
    pub fn to_string(&self) -> (s: String)
        ensures
            s@ == spec_matchers_text(self.matchers@),
    {
        let mut texts: Vec<String> = Vec::new();
        let mut i: usize = 0;
        while i < self.matchers.len()
            invariant
                i <= self.matchers.len(),
                texts.deep_view() == spec_matcher_texts(self.matchers@).take(i as int),
            decreases self.matchers.len() - i,
        {
            let t = self.matchers[i].to_string();
            let ghost before = texts.deep_view();
            texts.push(t);
            assert(texts.deep_view() =~= before.push(t@));
            i = i + 1;
            assert(texts.deep_view() =~= spec_matcher_texts(self.matchers@).take(i as int));
        }
        assert(spec_matcher_texts(self.matchers@).take(i as int) =~= spec_matcher_texts(
            self.matchers@,
        ));
        let sorted = sort_strings(texts);
        join_strings(&sorted, ",")
    }
}


/// Matcher lists with the same matchers, in any order, have texts with the same matcher
/// texts.
proof fn lemma_matcher_texts_permutation(a: Seq<Matcher>, b: Seq<Matcher>)
    requires
        a.to_multiset() == b.to_multiset(),
    ensures
        spec_matcher_texts(a).to_multiset() == spec_matcher_texts(b).to_multiset(),
    decreases a.len(),
{
    broadcast use vstd::seq_lib::group_to_multiset_ensures, vstd::multiset::group_multiset_axioms;

    if a.len() == 0 {
        assert(a.to_multiset().len() == 0);
        assert(b.len() == b.to_multiset().len());
        assert(b.len() == 0);
        assert(spec_matcher_texts(a) =~= spec_matcher_texts(b));
    } else {
        let x = a.last();
        assert(a.to_multiset().count(x) > 0) by {
            assert(a.contains(x)) by {
                assert(a[a.len() - 1] == x);
            }
        }
        assert(b.contains(x));
        let k = choose|k: int| 0 <= k < b.len() && b[k] == x;
        let a1 = a.drop_last();
        let b1 = b.remove(k);
        assert(a1.push(x) =~= a);
        assert(a1.to_multiset() =~= b1.to_multiset()) by {
            assert(a.to_multiset() =~= a1.to_multiset().insert(x));
            assert(b1.to_multiset() =~= b.to_multiset().remove(x));
        }
        lemma_matcher_texts_permutation(a1, b1);
        let ta = spec_matcher_texts(a);
        let tb = spec_matcher_texts(b);
        assert(spec_matcher_texts(a1).push(spec_matcher_text(x)) =~= ta);
        assert(tb.remove(k) =~= spec_matcher_texts(b1));
        assert(tb[k] == spec_matcher_text(x));
        assert(tb.remove(k).to_multiset() =~= tb.to_multiset().remove(spec_matcher_text(x)));
        assert(tb.to_multiset().count(spec_matcher_text(x)) > 0) by {
            assert(tb.contains(spec_matcher_text(x)));
        }
        assert(ta.to_multiset() =~= tb.to_multiset());
    }
}

/// The text of a matcher list does not depend on the order of its matchers.
pub proof fn lemma_matchers_text_order_independent(a: Seq<Matcher>, b: Seq<Matcher>)
    requires
        a.to_multiset() == b.to_multiset(),
    ensures
        spec_matchers_text(a) == spec_matchers_text(b),
{
    lemma_matcher_texts_permutation(a, b);
    lemma_sort_order_independent(spec_matcher_texts(a), spec_matcher_texts(b));
}

/// An equality matcher matches exactly its own value; the inequality matcher of a value
/// matches exactly what the equality matcher does not, and so does a negated regex
/// matcher for the regex matcher with the same pattern.
pub proof fn lemma_matchers_complement(value: Seq<char>, p: Pattern, s: Seq<char>)
    ensures
        spec_is_match(MatchOp::Equal, value, s) <==> s == value,
        spec_is_match(MatchOp::NotEqual, value, s) <==> !spec_is_match(MatchOp::Equal, value, s),
        spec_is_match(MatchOp::NotRe(p), value, s) <==> !spec_is_match(MatchOp::Re(p), value, s),
        spec_is_match(MatchOp::Re(p), value, s) <==> regex_is_match(p@, s),
{
}

} // verus!
