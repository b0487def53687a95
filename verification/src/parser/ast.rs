//! The modifiers of aggregations and binary operations.
use vstd::prelude::*;

use crate::label::matcher::Matchers;
use crate::label::{spec_intersect, spec_is_joint, Labels};
use crate::parser::function::{Function, FunctionArgs};
use crate::label::matcher::{spec_find_matcher, spec_is_empty_matchers};
use crate::label::METRIC_NAME;
use crate::parser::function::spec_function;
use crate::parser::token::{
    spec_is_aggregator, spec_is_aggregator_with_param, spec_is_comparison_operator,
    spec_is_operator, spec_is_set_operator, spec_token_display, token_display, Token, TokenId,
    TokenType, T_BOTTOMK, T_COUNT_VALUES, T_END, T_QUANTILE, T_START, T_TOPK,
};
use crate::parser::value::value_type_name;
use crate::parser::value::ValueType;
use crate::util::duration::{display_duration, spec_display_duration, Duration};
use crate::util::text::{append_decimal, append_str, spec_decimal_string, str_eq, str_to_string};

verus! {

/// The label list of an aggregation (`by`, `without`) or of a vector matching (`on`,
/// `ignoring`):
///
/// - for an aggregation, `Include` is `by` (only the listed labels are kept) and
///   `Exclude` is `without` (the listed labels are removed);
/// - for a vector matching, `Include` is `on` and `Exclude` is `ignoring`.
///
/// An empty list means no grouping.
#[derive(Debug, Clone, PartialEq, Eq)]
pub enum LabelModifier {
    Include(Labels),
    Exclude(Labels),
}

/// The label list of a modifier.
pub open spec fn modifier_labels(m: LabelModifier) -> Labels {
    match m {
        LabelModifier::Include(l) => l,
        LabelModifier::Exclude(l) => l,
    }
}

impl LabelModifier {
    pub fn labels(&self) -> (l: &Labels)
        ensures
            *l == modifier_labels(*self),
    {
        match self {
            LabelModifier::Include(l) => l,
            LabelModifier::Exclude(l) => l,
        }
    }

    pub fn is_include(&self) -> (b: bool)
        ensures
            b == (*self is Include),
    {
        match self {
            LabelModifier::Include(_) => true,
            LabelModifier::Exclude(_) => false,
        }
    }

    pub fn include_labels(ls: Vec<&str>) -> (m: LabelModifier)
        ensures
            m is Include,
            modifier_labels(m)@ == ls.deep_view(),
    {
        LabelModifier::Include(Labels::new(ls))
    }

    pub fn exclude(ls: Vec<&str>) -> (m: LabelModifier)
        ensures
            m is Exclude,
            modifier_labels(m)@ == ls.deep_view(),
    {
        LabelModifier::Exclude(Labels::new(ls))
    }
}

/// The cardinality of a vector matching. The label list of `group_left` or
/// `group_right` holds the labels of the "one" side that are added to the result.
#[derive(Debug, Clone, PartialEq, Eq)]
pub enum VectorMatchCardinality {
    OneToOne,
    ManyToOne(Labels),
    OneToMany(Labels),
    /// of the logical/set operators
    ManyToMany,
}

/// The label list of a cardinality, if it has one.
pub open spec fn card_labels(c: VectorMatchCardinality) -> Option<Labels> {
    match c {
        VectorMatchCardinality::ManyToOne(l) => Some(l),
        VectorMatchCardinality::OneToMany(l) => Some(l),
        VectorMatchCardinality::ManyToMany => None,
        VectorMatchCardinality::OneToOne => None,
    }
}

impl VectorMatchCardinality {
    pub fn labels(&self) -> (l: Option<&Labels>)
        ensures
            match card_labels(*self) {
                Some(x) => l == Some(&x),
                None => l.is_none(),
            },
    {
        match self {
            VectorMatchCardinality::ManyToOne(l) => Some(l),
            VectorMatchCardinality::OneToMany(l) => Some(l),
            VectorMatchCardinality::ManyToMany => None,
            VectorMatchCardinality::OneToOne => None,
        }
    }

    pub fn many_to_one(ls: Vec<&str>) -> (c: VectorMatchCardinality)
        ensures
            c is ManyToOne,
            card_labels(c).unwrap()@ == ls.deep_view(),
    {
        VectorMatchCardinality::ManyToOne(Labels::new(ls))
    }

    pub fn one_to_many(ls: Vec<&str>) -> (c: VectorMatchCardinality)
        ensures
            c is OneToMany,
            card_labels(c).unwrap()@ == ls.deep_view(),
    {
        VectorMatchCardinality::OneToMany(Labels::new(ls))
    }
}

/// The modifier of a binary expression.
#[derive(Debug, Clone, PartialEq, Eq)]
pub struct BinModifier {
    /// The matching behavior for the operation if both operands are vectors.
    pub card: VectorMatchCardinality,
    /// on/ignoring on labels; `a + b` needs none.
    pub matching: Option<LabelModifier>,
    /// For a comparison operator, whether 0/1 is returned rather than filtering.
    pub return_bool: bool,
}

impl Default for BinModifier {
    fn default() -> (m: BinModifier)
        ensures
            m.card == VectorMatchCardinality::OneToOne,
            m.matching.is_none(),
            !m.return_bool,
    {
        BinModifier { card: VectorMatchCardinality::OneToOne, matching: None, return_bool: false }
    }
}

/// Whether the labels of the cardinality and of the matching have a name in common.
pub open spec fn spec_is_labels_joint(m: BinModifier) -> bool {
    match (card_labels(m.card), m.matching) {
        (Some(labels), Some(matching)) => spec_is_joint(labels@, modifier_labels(matching)@),
        _ => false,
    }
}

/// Whether the modifier matches `on` labels.
pub open spec fn spec_is_matching_on(m: BinModifier) -> bool {
    m.matching matches Some(matching) && matching is Include
}

/// Whether the modifier has a non-empty matching label list.
pub open spec fn spec_is_matching_labels_not_empty(m: BinModifier) -> bool {
    m.matching matches Some(matching) && modifier_labels(matching)@.len() > 0
}

impl BinModifier {
    pub fn with_card(self, card: VectorMatchCardinality) -> (m: BinModifier)
        ensures
            m == (BinModifier { card, ..self }),
    {
        BinModifier { card, matching: self.matching, return_bool: self.return_bool }
    }

    pub fn with_matching(self, matching: Option<LabelModifier>) -> (m: BinModifier)
        ensures
            m == (BinModifier { matching, ..self }),
    {
        BinModifier { card: self.card, matching, return_bool: self.return_bool }
    }

    pub fn with_return_bool(self, return_bool: bool) -> (m: BinModifier)
        ensures
            m == (BinModifier { return_bool, ..self }),
    {
        BinModifier { card: self.card, matching: self.matching, return_bool }
    }

    /// Whether the labels of the cardinality and of the matching have a name in common.
    pub fn is_labels_joint(&self) -> (b: bool)
        ensures
            b == spec_is_labels_joint(*self),
    {
        match (self.card.labels(), &self.matching) {
            (Some(labels), Some(matching)) => labels.is_joint(matching.labels()),
            _ => false,
        }
    }

    /// The names common to the labels of the cardinality and of the matching, if both
    /// have labels.
    pub fn intersect_labels(&self) -> (r: Option<Vec<String>>)
        ensures
            r is Some <==> (card_labels(self.card) is Some && self.matching is Some),
            r matches Some(v) ==> {
                let a = card_labels(self.card).unwrap()@;
                let b = modifier_labels(self.matching.unwrap())@;
                &&& v.deep_view() == spec_intersect(a, b)
                &&& forall|x: Seq<char>| v.deep_view().contains(x) <==> (a.contains(x) && b.contains(x))
                &&& v.deep_view().no_duplicates()
            },
    {
        if let Some(labels) = self.card.labels() {
            if let Some(matching) = &self.matching {
                return Some(labels.intersect(matching.labels()).labels);
            }
        }
        None
    }

    pub fn is_matching_on(&self) -> (b: bool)
        ensures
            b == spec_is_matching_on(*self),
    {
        match &self.matching {
            Some(matching) => matching.is_include(),
            None => false,
        }
    }

    pub fn is_matching_labels_not_empty(&self) -> (b: bool)
        ensures
            b == spec_is_matching_labels_not_empty(*self),
    {
        match &self.matching {
            Some(matching) => !matching.labels().is_empty(),
            None => false,
        }
    }

    /// `"bool "` for a modifier that returns 0/1, else the empty text.
    pub fn bool_str(&self) -> (s: &'static str)
        ensures
            s@ == (if self.return_bool {
                "bool "@
            } else {
                ""@
            }),
    {
        if self.return_bool {
            "bool "
        } else {
            ""
        }
    }
}

/// The offset of a selector or a subquery, forwards or backwards in time.
#[derive(Debug, Clone, PartialEq, Eq)]
pub enum Offset {
    Pos(Duration),
    Neg(Duration),
}

/// The text of an offset: its duration, after a `-` for a negative one.
pub open spec fn spec_offset_text(o: Offset) -> Seq<char> {
    match o {
        Offset::Pos(d) => spec_display_duration(d@),
        Offset::Neg(d) => "-"@ + spec_display_duration(d@),
    }
}

impl Offset {
    pub fn to_string(&self) -> (s: String)
        ensures
            s@ == spec_offset_text(*self),
    {
        match self {
            Offset::Pos(dur) => display_duration(dur),
            Offset::Neg(dur) => {
                let mut s = str_to_string("-");
                let d = display_duration(dur);
                append_str(&mut s, d.as_str());
                s
            },
        }
    }
}


/// Two to the 53rd: from here on, not every integer is a binary64 value.
pub open spec fn two_pow_53() -> nat {
    0x20_0000_0000_0000
}

/// The distance between neighbouring binary64 values around `m * st`, for a power of
/// two `st`: the loop halves `m` until it fits in 53 bits.
pub open spec fn spec_f64_spacing(m: nat, st: nat) -> nat
    decreases m,
{
    if m < two_pow_53() {
        st
    } else {
        spec_f64_spacing(m / 2, st * 2)
    }
}

/// The binary64 value nearest to the integer `n` (ties to the even one), which is what
/// `n as f64` gives.
pub open spec fn spec_nearest_double(n: nat) -> nat {
    let st = spec_f64_spacing(n, 1);
    let q = n / st;
    let r = n % st;
    if 2 * r < st {
        q * st
    } else if 2 * r > st {
        (q + 1) * st
    } else if q % 2 == 0 {
        q * st
    } else {
        (q + 1) * st
    }
}

/// The binary64 value nearest to `n` (ties to even).
fn nearest_double(n: u128) -> (r: u128)
    requires
        n < 0x8000_0000_0000_0000_0000_0000_0000_0000,
    ensures
        r == spec_nearest_double(n as nat),
{
    let mut m: u128 = n;
    let mut st: u128 = 1;
    while m >= 0x20_0000_0000_0000
        invariant
            st > 0,
            m == n as nat / st as nat,
            st * m <= n,
            n < 0x8000_0000_0000_0000_0000_0000_0000_0000,
            spec_f64_spacing(m as nat, st as nat) == spec_f64_spacing(n as nat, 1),
        decreases m,
    {
        proof {
            vstd::arithmetic::div_mod::lemma_div_denominator(n as int, st as int, 2);
            assert(st * 2 * (m / 2) <= st * m) by (nonlinear_arith)
                requires
                    st > 0,
            ;
            assert(st * 2 <= n) by (nonlinear_arith)
                requires
                    st * m <= n,
                    m >= 2,
                    st > 0,
            ;
        }
        m = m / 2;
        st = st * 2;
    }
    assert(spec_f64_spacing(m as nat, st as nat) == st);
    let q = n / st;
    let rem = n % st;
    assert(q * st + rem == n && rem < st && (q + 1) * st == q * st + st) by (nonlinear_arith)
        requires
            st > 0,
            q == n / st,
            rem == n % st,
    ;
    if rem < st - rem {
        q * st
    } else if rem > st - rem {
        q * st + st
    } else if q % 2 == 0 {
        q * st
    } else {
        q * st + st
    }
}

/// The time an `@` modifier evaluates the expression at.
#[derive(Debug, Clone, Copy, PartialEq, Eq, Structural)]
pub enum AtModifier {
    /// `@ start()`: the start of the evaluation range.
    Start,
    /// `@ end()`: the end of the evaluation range.
    End,
    /// A fixed time, in milliseconds since the Unix epoch (negative before it).
    At(i128),
}

/// The text of an `@` modifier; a fixed time is shown in whole seconds since the epoch,
/// as the binary64 value of that count with three decimals (times before the epoch
/// show as `0.000`).
pub open spec fn spec_at_text(a: AtModifier) -> Seq<char> {
    match a {
        AtModifier::Start => "@ "@ + spec_token_display(T_START) + "()"@,
        AtModifier::End => "@ "@ + spec_token_display(T_END) + "()"@,
        AtModifier::At(ms) => {
            let secs: nat = if ms >= 0 {
                (ms / 1000) as nat
            } else {
                0
            };
            "@ "@ + spec_decimal_string(spec_nearest_double(secs)) + ".000"@
        },
    }
}

/// The error text for a token that is not `start` or `end` after `@`.
pub open spec fn spec_at_token_error(id: TokenId) -> Seq<char> {
    "invalid @ modifier preprocessor '"@ + spec_token_display(id) + "', START or END is valid."@
}

impl AtModifier {
    /// The modifier of the preprocessor token `start` or `end`.
    pub fn from_token_id(id: TokenId) -> (r: Result<AtModifier, String>)
        ensures
            r is Ok <==> (id == T_START || id == T_END),
            r matches Ok(a) ==> (id == T_START ==> a == AtModifier::Start) && (id == T_END ==> a
                == AtModifier::End),
            r matches Err(e) ==> e@ == spec_at_token_error(id),
    {
        if id == T_START {
            Ok(AtModifier::Start)
        } else if id == T_END {
            Ok(AtModifier::End)
        } else {
            let mut e = str_to_string("invalid @ modifier preprocessor '");
            append_str(&mut e, token_display(id));
            append_str(&mut e, "', START or END is valid.");
            Err(e)
        }
    }

    /// The modifier of the token's kind (see `from_token_id`).
    pub fn from_token(token: Token) -> (r: Result<AtModifier, String>)
        ensures
            r is Ok <==> (token.id.0 == T_START || token.id.0 == T_END),
            r matches Ok(a) ==> (token.id.0 == T_START ==> a == AtModifier::Start) && (token.id.0
                == T_END ==> a == AtModifier::End),
            r matches Err(e) ==> e@ == spec_at_token_error(token.id.0),
    {
        AtModifier::from_token_id(token.id())
    }

    pub fn to_string(&self) -> (s: String)
        ensures
            s@ == spec_at_text(*self),
    {
        match self {
            AtModifier::Start => {
                let mut s = str_to_string("@ ");
                append_str(&mut s, token_display(T_START));
                append_str(&mut s, "()");
                s
            },
            AtModifier::End => {
                let mut s = str_to_string("@ ");
                append_str(&mut s, token_display(T_END));
                append_str(&mut s, "()");
                s
            },
            AtModifier::At(ms) => {
                let secs: u128 = if *ms >= 0 {
                    (*ms / 1000) as u128
                } else {
                    0
                };
                let mut s = str_to_string("@ ");
                append_decimal(&mut s, nearest_double(secs));
                append_str(&mut s, ".000");
                s
            },
        }
    }
}


/// An expression with the range it is evaluated over: an instant when `start` equals
/// `end`. Times are in milliseconds since the Unix epoch.
#[derive(Debug)]
pub struct EvalStmt {
    /// The expression to evaluate.
    pub expr: Expr,
    /// The first time evaluated.
    pub start: i128,
    /// The last time evaluated.
    pub end: i128,
    /// The time between two evaluated instants of the range.
    pub interval: Duration,
    /// How far back a sample is looked up.
    pub lookback_delta: Duration,
}

/// The biased exponent field of the binary64 encoding `b`.
pub open spec fn f64_exponent(b: u64) -> int {
    (b as int / 0x10_0000_0000_0000) % 2048
}

/// The fraction field of the binary64 encoding `b`.
pub open spec fn f64_fraction(b: u64) -> int {
    b as int % 0x10_0000_0000_0000
}

/// Whether the sign bit of the binary64 encoding `b` is set.
pub open spec fn f64_sign(b: u64) -> bool {
    b >= 0x8000_0000_0000_0000
}

/// Whether `b` encodes a NaN.
pub open spec fn f64_is_nan(b: u64) -> bool {
    f64_exponent(b) == 2047 && f64_fraction(b) != 0
}

/// Whether `b` encodes an infinity.
pub open spec fn f64_is_infinite(b: u64) -> bool {
    f64_exponent(b) == 2047 && f64_fraction(b) == 0
}

/// Whether `b` encodes a zero (of either sign).
pub open spec fn f64_is_zero(b: u64) -> bool {
    f64_exponent(b) == 0 && f64_fraction(b) == 0
}

/// Whether the number that `b` encodes is `<= 0.0` (false for NaN).
pub open spec fn f64_le_zero(b: u64) -> bool {
    !f64_is_nan(b) && (f64_sign(b) || f64_is_zero(b))
}

/// The encoding of the negated number: the sign bit flipped.
pub open spec fn f64_neg(b: u64) -> u64 {
    if f64_sign(b) {
        (b - 0x8000_0000_0000_0000) as u64
    } else {
        (b + 0x8000_0000_0000_0000) as u64
    }
}

/// Whether two number literals are equal: as numbers (so `0.0 == -0.0`), and any two
/// NaNs are equal.
pub open spec fn spec_number_eq(a: u64, b: u64) -> bool {
    (f64_is_nan(a) && f64_is_nan(b)) || (!f64_is_nan(a) && !f64_is_nan(b) && (a == b || (
    f64_is_zero(a) && f64_is_zero(b))))
}

fn exponent_of(b: u64) -> (e: u64)
    ensures
        e == f64_exponent(b),
{
    (b / 0x10_0000_0000_0000) % 2048
}

fn fraction_of(b: u64) -> (f: u64)
    ensures
        f == f64_fraction(b),
{
    b % 0x10_0000_0000_0000
}

/// A number, held as the IEEE-754 binary64 encoding of its value.
#[derive(Debug, Clone, Copy)]
pub struct NumberLiteral {
    pub val: u64,
}

impl NumberLiteral {
    pub fn new(val: u64) -> (n: NumberLiteral)
        ensures
            n.val == val,
    {
        NumberLiteral { val }
    }

    pub fn is_nan(&self) -> (b: bool)
        ensures
            b == f64_is_nan(self.val),
    {
        exponent_of(self.val) == 2047 && fraction_of(self.val) != 0
    }

    pub fn is_infinite(&self) -> (b: bool)
        ensures
            b == f64_is_infinite(self.val),
    {
        exponent_of(self.val) == 2047 && fraction_of(self.val) == 0
    }

    pub fn is_zero(&self) -> (b: bool)
        ensures
            b == f64_is_zero(self.val),
    {
        exponent_of(self.val) == 0 && fraction_of(self.val) == 0
    }

    /// Whether the number is `<= 0.0`.
    pub fn is_le_zero(&self) -> (b: bool)
        ensures
            b == f64_le_zero(self.val),
    {
        !self.is_nan() && (self.val >= 0x8000_0000_0000_0000 || self.is_zero())
    }

    /// The negated number.
    pub fn negate(self) -> (n: NumberLiteral)
        ensures
            n.val == f64_neg(self.val),
    {
        if self.val >= 0x8000_0000_0000_0000 {
            NumberLiteral { val: self.val - 0x8000_0000_0000_0000 }
        } else {
            NumberLiteral { val: self.val + 0x8000_0000_0000_0000 }
        }
    }
}

impl PartialEq for NumberLiteral {
    fn eq(&self, other: &Self) -> (b: bool) {
        if self.is_nan() || other.is_nan() {
            self.is_nan() && other.is_nan()
        } else {
            self.val == other.val || (self.is_zero() && other.is_zero())
        }
    }
}

impl vstd::std_specs::cmp::PartialEqSpecImpl for NumberLiteral {
    open spec fn obeys_eq_spec() -> bool {
        true
    }

    open spec fn eq_spec(&self, other: &Self) -> bool {
        spec_number_eq(self.val, other.val)
    }
}

impl Eq for NumberLiteral {}

impl core::ops::Neg for NumberLiteral {
    type Output = NumberLiteral;

    fn neg(self) -> (n: NumberLiteral) {
        self.negate()
    }
}

impl vstd::std_specs::ops::NegSpecImpl for NumberLiteral {
    open spec fn obeys_neg_spec() -> bool {
        true
    }

    open spec fn neg_req(self) -> bool {
        true
    }

    open spec fn neg_spec(self) -> NumberLiteral {
        NumberLiteral { val: f64_neg(self.val) }
    }
}

/// A string.
#[derive(Debug, Clone, PartialEq, Eq)]
pub struct StringLiteral {
    pub val: String,
}

/// The selection of the series of a metric, by name and label matchers.
#[derive(Debug, Clone, PartialEq, Eq)]
pub struct VectorSelector {
    pub name: Option<String>,
    pub matchers: Matchers,
    pub offset: Option<Offset>,
    pub at: Option<AtModifier>,
}

impl VectorSelector {
    pub fn new(name: Option<String>, matchers: Matchers) -> (vs: VectorSelector)
        ensures
            vs == (VectorSelector { name, matchers, offset: None, at: None }),
    {
        VectorSelector { name, matchers, offset: None, at: None }
    }

    /// The selector of the metric `name`, with no matcher.
    pub fn from(name: &str) -> (vs: VectorSelector)
        ensures
            vs.name matches Some(n) && n@ == name@,
            vs.matchers.matchers@.len() == 0,
            vs.offset is None,
            vs.at is None,
    {
        VectorSelector {
            name: Some(str_to_string(name)),
            matchers: Matchers::empty(),
            offset: None,
            at: None,
        }
    }
}

impl Default for VectorSelector {
    fn default() -> (vs: VectorSelector)
        ensures
            vs.name is None,
            vs.matchers.matchers@.len() == 0,
            vs.offset is None,
            vs.at is None,
    {
        VectorSelector { name: None, matchers: Matchers::empty(), offset: None, at: None }
    }
}

/// A vector selector over a range of time.
#[derive(Debug, Clone, PartialEq, Eq)]
pub struct MatrixSelector {
    pub vs: VectorSelector,
    pub range: Duration,
}

/// An aggregation: `<op> [without|by (<labels>)] ([parameter,] <vector expression>)`.
#[derive(Debug, PartialEq, Eq)]
pub struct AggregateExpr {
    /// The aggregation operator.
    pub op: TokenType,
    /// The vector expression that is aggregated.
    pub expr: Box<Expr>,
    /// The parameter of `count_values`, `quantile`, `topk` and `bottomk`.
    pub param: Option<Box<Expr>>,
    /// The grouping, if any.
    pub modifier: Option<LabelModifier>,
}

/// The negation of an expression.
#[derive(Debug, PartialEq, Eq)]
pub struct UnaryExpr {
    pub expr: Box<Expr>,
}

/// A binary operation, with its vector matching.
#[derive(Debug, PartialEq, Eq)]
pub struct BinaryExpr {
    /// The operator.
    pub op: TokenType,
    /// The left operand.
    pub lhs: Box<Expr>,
    /// The right operand.
    pub rhs: Box<Expr>,
    pub modifier: Option<BinModifier>,
}

/// An expression in parentheses.
#[derive(Debug, PartialEq, Eq)]
pub struct ParenExpr {
    pub expr: Box<Expr>,
}

/// A subquery: `<instant query> '[' <range> ':' [<resolution>] ']' [@ <time>] [offset <duration>]`.
#[derive(Debug, PartialEq, Eq)]
pub struct SubqueryExpr {
    pub expr: Box<Expr>,
    pub offset: Option<Offset>,
    pub at: Option<AtModifier>,
    pub range: Duration,
    /// The resolution; the global evaluation interval where it is not given.
    pub step: Option<Duration>,
}

/// A function call.
#[derive(Debug, PartialEq, Eq)]
pub struct Call {
    pub func: Function,
    pub args: FunctionArgs,
}

/// A PromQL expression.
#[derive(Debug, PartialEq, Eq)]
pub enum Expr {
    /// An aggregation over a vector.
    Aggregate(AggregateExpr),
    /// The negation of another expression.
    Unary(UnaryExpr),
    /// A binary operation between two expressions.
    Binary(BinaryExpr),
    /// An expression in parentheses, kept apart by operator precedence.
    Paren(ParenExpr),
    /// A subquery.
    Subquery(SubqueryExpr),
    /// A number.
    NumberLiteral(NumberLiteral),
    /// A string.
    StringLiteral(StringLiteral),
    /// The selection of a vector.
    VectorSelector(VectorSelector),
    /// The selection of a matrix.
    MatrixSelector(MatrixSelector),
    /// A function call.
    Call(Call),
}

/// The type of the value that `e` evaluates to.
pub open spec fn spec_value_type(e: Expr) -> ValueType
    decreases e,
{
    match e {
        Expr::Aggregate(_) => ValueType::Vector,
        Expr::Unary(u) => spec_value_type(*u.expr),
        Expr::Binary(b) => {
            if spec_value_type(*b.lhs) == ValueType::Scalar && spec_value_type(*b.rhs)
                == ValueType::Scalar {
                ValueType::Scalar
            } else {
                ValueType::Vector
            }
        },
        Expr::Paren(p) => spec_value_type(*p.expr),
        Expr::Subquery(_) => ValueType::Matrix,
        Expr::NumberLiteral(_) => ValueType::Scalar,
        Expr::StringLiteral(_) => ValueType::String,
        Expr::VectorSelector(_) => ValueType::Vector,
        Expr::MatrixSelector(_) => ValueType::Matrix,
        Expr::Call(c) => c.func.return_type,
    }
}

/// The negation of `e`: a number literal is negated in place, anything else is wrapped
/// in a unary expression.
pub open spec fn spec_neg(e: Expr) -> Expr {
    match e {
        Expr::NumberLiteral(n) => Expr::NumberLiteral(NumberLiteral { val: f64_neg(n.val) }),
        _ => Expr::Unary(UnaryExpr { expr: Box::new(e) }),
    }
}

/// The error text when `@` is set a second time.
pub open spec fn at_set_twice() -> Seq<char> {
    "@ <timestamp> may not be set multiple times"@
}

/// The error text when `offset` is set a second time.
pub open spec fn offset_set_twice() -> Seq<char> {
    "offset may not be set multiple times"@
}

/// `e` with its `@` modifier set, if it is a selector or a subquery without one.
pub open spec fn spec_at_expr(e: Expr, at: AtModifier) -> Result<Expr, Seq<char>> {
    match e {
        Expr::VectorSelector(vs) => if vs.at is None {
            Ok(Expr::VectorSelector(VectorSelector { at: Some(at), ..vs }))
        } else {
            Err(at_set_twice())
        },
        Expr::MatrixSelector(ms) => if ms.vs.at is None {
            Ok(
                Expr::MatrixSelector(
                    MatrixSelector { vs: VectorSelector { at: Some(at), ..ms.vs }, ..ms },
                ),
            )
        } else {
            Err(at_set_twice())
        },
        Expr::Subquery(sq) => if sq.at is None {
            Ok(Expr::Subquery(SubqueryExpr { at: Some(at), ..sq }))
        } else {
            Err(at_set_twice())
        },
        _ => Err(
            "@ modifier must be preceded by an vector selector or matrix selector or a subquery"@,
        ),
    }
}

/// `e` with its offset set, if it is a selector or a subquery without one.
pub open spec fn spec_offset_expr(e: Expr, offset: Offset) -> Result<Expr, Seq<char>> {
    match e {
        Expr::VectorSelector(vs) => if vs.offset is None {
            Ok(Expr::VectorSelector(VectorSelector { offset: Some(offset), ..vs }))
        } else {
            Err(offset_set_twice())
        },
        Expr::MatrixSelector(ms) => if ms.vs.offset is None {
            Ok(
                Expr::MatrixSelector(
                    MatrixSelector { vs: VectorSelector { offset: Some(offset), ..ms.vs }, ..ms },
                ),
            )
        } else {
            Err(offset_set_twice())
        },
        Expr::Subquery(sq) => if sq.offset is None {
            Ok(Expr::Subquery(SubqueryExpr { offset: Some(offset), ..sq }))
        } else {
            Err(offset_set_twice())
        },
        _ => Err(
            "offset modifier must be preceded by an vector selector or matrix selector or a subquery"@,
        ),
    }
}

/// Whether the outcome `r` of an exec function is the spec outcome `s`, errors compared
/// by their text.
pub open spec fn same_outcome(r: Result<Expr, String>, s: Result<Expr, Seq<char>>) -> bool {
    match (r, s) {
        (Ok(a), Ok(b)) => a == b,
        (Err(x), Err(y)) => x@ == y,
        _ => false,
    }
}

fn err_text(s: &str) -> (r: Result<Expr, String>)
    ensures
        r matches Err(e) && e@ == s@,
{
    Err(str_to_string(s))
}

impl Expr {
    pub fn new_vector_selector(name: Option<String>, matchers: Matchers) -> (r: Result<
        Expr,
        String,
    >)
        ensures
            r matches Ok(e) && e == Expr::VectorSelector(
                VectorSelector { name, matchers, offset: None, at: None },
            ),
    {
        Ok(Expr::VectorSelector(VectorSelector::new(name, matchers)))
    }

    /// The negation of `self` (see `spec_neg`).
    pub fn negate(self) -> (e: Expr)
        ensures
            e == spec_neg(self),
    {
        match self {
            Expr::NumberLiteral(n) => Expr::NumberLiteral(n.negate()),
            _ => Expr::Unary(UnaryExpr { expr: Box::new(self) }),
        }
    }

    /// The negation of `expr`; strings and matrices cannot be negated.
    pub fn new_unary_expr(expr: Expr) -> (r: Result<Expr, String>)
        ensures
            same_outcome(
                r,
                match expr {
                    Expr::StringLiteral(_) => Err(
                        "unary expression only allowed on expressions of type scalar or vector, got: string"@,
                    ),
                    Expr::MatrixSelector(_) => Err(
                        "unary expression only allowed on expressions of type scalar or vector, got: matrix"@,
                    ),
                    _ => Ok(spec_neg(expr)),
                },
            ),
    {
        match expr {
            Expr::StringLiteral(_) => err_text(
                "unary expression only allowed on expressions of type scalar or vector, got: string",
            ),
            Expr::MatrixSelector(_) => err_text(
                "unary expression only allowed on expressions of type scalar or vector, got: matrix",
            ),
            _ => Ok(expr.negate()),
        }
    }

    pub fn new_subquery_expr(expr: Expr, range: Duration, step: Option<Duration>) -> (r: Result<
        Expr,
        String,
    >)
        ensures
            r matches Ok(e) && e == Expr::Subquery(
                SubqueryExpr { expr: Box::new(expr), offset: None, at: None, range, step },
            ),
    {
        Ok(Expr::Subquery(SubqueryExpr { expr: Box::new(expr), offset: None, at: None, range, step }))
    }

    pub fn new_paren_expr(expr: Expr) -> (r: Result<Expr, String>)
        ensures
            r matches Ok(e) && e == Expr::Paren(ParenExpr { expr: Box::new(expr) }),
    {
        Ok(Expr::Paren(ParenExpr { expr: Box::new(expr) }))
    }

    /// The range selection of a vector selector that has neither offset nor `@` yet.
    pub fn new_matrix_selector(expr: Expr, range: Duration) -> (r: Result<Expr, String>)
        ensures
            same_outcome(
                r,
                match expr {
                    Expr::VectorSelector(vs) => if vs.offset is Some {
                        Err("no offset modifiers allowed before range"@)
                    } else if vs.at is Some {
                        Err("no @ modifiers allowed before range"@)
                    } else {
                        Ok(Expr::MatrixSelector(MatrixSelector { vs, range }))
                    },
                    _ => Err("ranges only allowed for vector selectors"@),
                },
            ),
    {
        match expr {
            Expr::VectorSelector(vs) => {
                if vs.offset.is_some() {
                    err_text("no offset modifiers allowed before range")
                } else if vs.at.is_some() {
                    err_text("no @ modifiers allowed before range")
                } else {
                    Ok(Expr::MatrixSelector(MatrixSelector { vs, range }))
                }
            },
            _ => err_text("ranges only allowed for vector selectors"),
        }
    }

    /// `self` with its `@` modifier set; it can only be set once.
    pub fn at_expr(self, at: AtModifier) -> (r: Result<Expr, String>)
        ensures
            same_outcome(r, spec_at_expr(self, at)),
    {
        match self {
            Expr::VectorSelector(vs) => {
                if vs.at.is_none() {
                    Ok(
                        Expr::VectorSelector(
                            VectorSelector {
                                name: vs.name,
                                matchers: vs.matchers,
                                offset: vs.offset,
                                at: Some(at),
                            },
                        ),
                    )
                } else {
                    err_text("@ <timestamp> may not be set multiple times")
                }
            },
            Expr::MatrixSelector(ms) => {
                if ms.vs.at.is_none() {
                    let vs = VectorSelector {
                        name: ms.vs.name,
                        matchers: ms.vs.matchers,
                        offset: ms.vs.offset,
                        at: Some(at),
                    };
                    Ok(Expr::MatrixSelector(MatrixSelector { vs, range: ms.range }))
                } else {
                    err_text("@ <timestamp> may not be set multiple times")
                }
            },
            Expr::Subquery(sq) => {
                if sq.at.is_none() {
                    Ok(
                        Expr::Subquery(
                            SubqueryExpr {
                                expr: sq.expr,
                                offset: sq.offset,
                                at: Some(at),
                                range: sq.range,
                                step: sq.step,
                            },
                        ),
                    )
                } else {
                    err_text("@ <timestamp> may not be set multiple times")
                }
            },
            _ => err_text(
                "@ modifier must be preceded by an vector selector or matrix selector or a subquery",
            ),
        }
    }

    /// `self` with its offset set; it can only be set once.
    pub fn offset_expr(self, offset: Offset) -> (r: Result<Expr, String>)
        ensures
            same_outcome(r, spec_offset_expr(self, offset)),
    {
        match self {
            Expr::VectorSelector(vs) => {
                if vs.offset.is_none() {
                    Ok(
                        Expr::VectorSelector(
                            VectorSelector {
                                name: vs.name,
                                matchers: vs.matchers,
                                offset: Some(offset),
                                at: vs.at,
                            },
                        ),
                    )
                } else {
                    err_text("offset may not be set multiple times")
                }
            },
            Expr::MatrixSelector(ms) => {
                if ms.vs.offset.is_none() {
                    let vs = VectorSelector {
                        name: ms.vs.name,
                        matchers: ms.vs.matchers,
                        offset: Some(offset),
                        at: ms.vs.at,
                    };
                    Ok(Expr::MatrixSelector(MatrixSelector { vs, range: ms.range }))
                } else {
                    err_text("offset may not be set multiple times")
                }
            },
            Expr::Subquery(sq) => {
                if sq.offset.is_none() {
                    Ok(
                        Expr::Subquery(
                            SubqueryExpr {
                                expr: sq.expr,
                                offset: Some(offset),
                                at: sq.at,
                                range: sq.range,
                                step: sq.step,
                            },
                        ),
                    )
                } else {
                    err_text("offset may not be set multiple times")
                }
            },
            _ => err_text(
                "offset modifier must be preceded by an vector selector or matrix selector or a subquery",
            ),
        }
    }

    pub fn new_call(func: Function, args: FunctionArgs) -> (r: Result<Expr, String>)
        ensures
            r matches Ok(e) && e == Expr::Call(Call { func, args }),
    {
        Ok(Expr::Call(Call { func, args }))
    }

    pub fn new_binary_expr(lhs: Expr, op: TokenId, modifier: Option<BinModifier>, rhs: Expr) -> (r:
        Result<Expr, String>)
        ensures
            r matches Ok(e) && e == Expr::Binary(
                BinaryExpr {
                    op: TokenType(op),
                    lhs: Box::new(lhs),
                    rhs: Box::new(rhs),
                    modifier,
                },
            ),
    {
        Ok(
            Expr::Binary(
                BinaryExpr {
                    op: TokenType::new(op),
                    lhs: Box::new(lhs),
                    rhs: Box::new(rhs),
                    modifier,
                },
            ),
        )
    }

    /// The type of the value the expression evaluates to.
    pub fn value_type(&self) -> (t: ValueType)
        ensures
            t == spec_value_type(*self),
        decreases self,
    {
        match self {
            Expr::Aggregate(_) => ValueType::Vector,
            Expr::Unary(u) => u.expr.value_type(),
            Expr::Binary(b) => {
                let l = b.lhs.value_type();
                let r = b.rhs.value_type();
                if l == ValueType::Scalar && r == ValueType::Scalar {
                    ValueType::Scalar
                } else {
                    ValueType::Vector
                }
            },
            Expr::Paren(p) => p.expr.value_type(),
            Expr::Subquery(_) => ValueType::Matrix,
            Expr::NumberLiteral(_) => ValueType::Scalar,
            Expr::StringLiteral(_) => ValueType::String,
            Expr::VectorSelector(_) => ValueType::Vector,
            Expr::MatrixSelector(_) => ValueType::Matrix,
            Expr::Call(c) => c.func.return_type,
        }
    }

    /// The number of a number literal (as its binary64 encoding), else `None`.
    pub fn scalar_value(&self) -> (r: Option<u64>)
        ensures
            r == (match *self {
                Expr::NumberLiteral(n) => Some(n.val),
                _ => None,
            }),
    {
        match self {
            Expr::NumberLiteral(n) => Some(n.val),
            _ => None,
        }
    }

    /// The selector of the metric `name` as an expression.
    pub fn from_vector_selector(vs: VectorSelector) -> (e: Expr)
        ensures
            e == Expr::VectorSelector(vs),
    {
        Expr::VectorSelector(vs)
    }

    /// The string literal `s`.
    pub fn from_str(s: &str) -> (e: Expr)
        ensures
            e matches Expr::StringLiteral(l) && l.val@ == s@,
    {
        Expr::StringLiteral(StringLiteral { val: str_to_string(s) })
    }

    /// The number literal with the binary64 encoding `val`.
    pub fn from_number(val: u64) -> (e: Expr)
        ensures
            e == Expr::NumberLiteral(NumberLiteral { val }),
    {
        Expr::NumberLiteral(NumberLiteral { val })
    }
}

/// The outcome of building an aggregation of `op` over `args`.
pub open spec fn spec_new_aggregate_expr(
    op: TokenId,
    modifier: Option<LabelModifier>,
    args: Seq<Box<Expr>>,
) -> Result<Expr, Seq<char>> {
    let with_param = spec_is_aggregator_with_param(op);
    let desired: nat = if with_param {
        2
    } else {
        1
    };
    if args.len() == 0 {
        Err("no arguments for aggregate expression '"@ + spec_token_display(op) + "' provided"@)
    } else if args.len() != desired {
        Err(
            "wrong number of arguments for aggregate expression provided, expected "@
                + spec_decimal_string(desired) + ", got "@ + spec_decimal_string(args.len()),
        )
    } else {
        Ok(
            Expr::Aggregate(
                AggregateExpr {
                    op: TokenType(op),
                    expr: args.last(),
                    param: if with_param {
                        Some(args[0])
                    } else {
                        None
                    },
                    modifier,
                },
            ),
        )
    }
}

impl Expr {
    /// The aggregation `op` over `args`: the last argument is the aggregated vector;
    /// `count_values`, `quantile`, `topk` and `bottomk` take a parameter first.
    pub fn new_aggregate_expr(op: TokenId, modifier: Option<LabelModifier>, args: FunctionArgs) -> (r:
        Result<Expr, String>)
        ensures
            same_outcome(r, spec_new_aggregate_expr(op, modifier, args.args@)),
    {
        let ghost a = args.args@;
        let op_type = TokenType::new(op);
        if args.is_empty() {
            let mut e = str_to_string("no arguments for aggregate expression '");
            append_str(&mut e, token_display(op));
            append_str(&mut e, "' provided");
            return Err(e);
        }
        let with_param = op_type.is_aggregator_with_param();
        let desired: usize = if with_param {
            2
        } else {
            1
        };
        if args.len() != desired {
            let mut e = str_to_string(
                "wrong number of arguments for aggregate expression provided, expected ",
            );
            append_decimal(&mut e, desired as u128);
            append_str(&mut e, ", got ");
            append_decimal(&mut e, args.len() as u128);
            return Err(e);
        }
        let mut v = args.args;
        let expr = v.pop().unwrap();
        let param = if with_param {
            Some(v.pop().unwrap())
        } else {
            None
        };
        Ok(Expr::Aggregate(AggregateExpr { op: op_type, expr, param, modifier }))
    }
}

impl BinaryExpr {
    pub fn is_matching_on(&self) -> (b: bool)
        ensures
            b == (self.modifier matches Some(m) && spec_is_matching_on(m)),
    {
        match &self.modifier {
            Some(m) => m.is_matching_on(),
            None => false,
        }
    }

    pub fn is_matching_labels_not_empty(&self) -> (b: bool)
        ensures
            b == (self.modifier matches Some(m) && spec_is_matching_labels_not_empty(m)),
    {
        match &self.modifier {
            Some(m) => m.is_matching_labels_not_empty(),
            None => false,
        }
    }

    pub fn return_bool(&self) -> (b: bool)
        ensures
            b == (self.modifier matches Some(m) && m.return_bool),
    {
        match &self.modifier {
            Some(m) => m.return_bool,
            None => false,
        }
    }

    /// Whether the labels of the cardinality and of the matching have a name in common.
    pub fn is_labels_joint(&self) -> (b: bool)
        ensures
            b == (self.modifier matches Some(m) && spec_is_labels_joint(m)),
    {
        match &self.modifier {
            Some(m) => m.is_labels_joint(),
            None => false,
        }
    }

    /// The names common to the labels of the cardinality and of the matching.
    pub fn intersect_labels(&self) -> (r: Option<Vec<String>>)
        ensures
            r is Some <==> (self.modifier matches Some(m) && card_labels(m.card) is Some
                && m.matching is Some),
            r matches Some(v) ==> v.deep_view() == spec_intersect(
                card_labels(self.modifier.unwrap().card).unwrap()@,
                modifier_labels(self.modifier.unwrap().matching.unwrap())@,
            ),
    {
        match &self.modifier {
            Some(m) => m.intersect_labels(),
            None => None,
        }
    }
}

impl From<VectorSelector> for Expr {
    fn from(vs: VectorSelector) -> (e: Expr) {
        Expr::from_vector_selector(vs)
    }
}

impl vstd::std_specs::convert::FromSpecImpl<VectorSelector> for Expr {
    open spec fn obeys_from_spec() -> bool {
        true
    }

    open spec fn from_spec(vs: VectorSelector) -> Expr {
        Expr::VectorSelector(vs)
    }
}

impl From<String> for Expr {
    fn from(val: String) -> (e: Expr) {
        Expr::StringLiteral(StringLiteral { val })
    }
}

impl vstd::std_specs::convert::FromSpecImpl<String> for Expr {
    open spec fn obeys_from_spec() -> bool {
        true
    }

    open spec fn from_spec(val: String) -> Expr {
        Expr::StringLiteral(StringLiteral { val })
    }
}

impl core::ops::Neg for Expr {
    type Output = Expr;

    fn neg(self) -> (e: Expr) {
        self.negate()
    }
}

impl vstd::std_specs::ops::NegSpecImpl for Expr {
    open spec fn obeys_neg_spec() -> bool {
        true
    }

    open spec fn neg_req(self) -> bool {
        true
    }

    open spec fn neg_spec(self) -> Expr {
        spec_neg(self)
    }
}

impl core::ops::Neg for VectorSelector {
    type Output = UnaryExpr;

    fn neg(self) -> (u: UnaryExpr) {
        UnaryExpr { expr: Box::new(Expr::VectorSelector(self)) }
    }
}

impl vstd::std_specs::ops::NegSpecImpl for VectorSelector {
    open spec fn obeys_neg_spec() -> bool {
        true
    }

    open spec fn neg_req(self) -> bool {
        true
    }

    open spec fn neg_spec(self) -> UnaryExpr {
        UnaryExpr { expr: Box::new(Expr::VectorSelector(self)) }
    }
}


/// The error text when a value of type `actual` (or none) is found where `expected` is.
pub open spec fn spec_expect_type_error(
    expected: ValueType,
    actual: Option<ValueType>,
    context: Seq<char>,
) -> Seq<char> {
    "expected type "@ + value_type_name(expected) + " in "@ + context + ", got "@ + match actual {
        Some(a) => value_type_name(a),
        None => "None"@,
    }
}

/// Checks that `actual` is `expected`.
fn expect_type(expected: ValueType, actual: Option<ValueType>, context: &str) -> (r: Result<
    bool,
    String,
>)
    ensures
        r is Ok <==> actual == Some(expected),
        r matches Err(e) ==> e@ == spec_expect_type_error(expected, actual, context@),
{
    match actual {
        Some(a) => {
            if a == expected {
                Ok(true)
            } else {
                let mut e = str_to_string("expected type ");
                let en = expected.to_string();
                append_str(&mut e, en.as_str());
                append_str(&mut e, " in ");
                append_str(&mut e, context);
                append_str(&mut e, ", got ");
                let an = a.to_string();
                append_str(&mut e, an.as_str());
                Err(e)
            }
        },
        None => {
            let mut e = str_to_string("expected type ");
            let en = expected.to_string();
            append_str(&mut e, en.as_str());
            append_str(&mut e, " in ");
            append_str(&mut e, context);
            append_str(&mut e, ", got ");
            append_str(&mut e, "None");
            Err(e)
        },
    }
}

/// The modifier of a set operation: one-to-one matching becomes many-to-many, and no
/// modifier becomes a many-to-many one.
pub open spec fn spec_set_op_modifier(m: Option<BinModifier>) -> Option<BinModifier> {
    match m {
        Some(b) => Some(
            if b.card == VectorMatchCardinality::OneToOne {
                BinModifier { card: VectorMatchCardinality::ManyToMany, ..b }
            } else {
                b
            },
        ),
        None => Some(
            BinModifier {
                card: VectorMatchCardinality::ManyToMany,
                matching: None,
                return_bool: false,
            },
        ),
    }
}

/// The outcome of checking a binary expression: the operator must be a binary one, `bool`
/// only on comparisons and required between scalars, an `on` label may not also be a
/// `group_left`/`group_right` label, set operators only between vectors and without
/// grouping (their matching becomes many-to-many), operands only scalars or vectors,
/// and vector matching only between vectors.
pub open spec fn spec_check_binary(ex: BinaryExpr) -> Result<Expr, Seq<char>> {
    let op = ex.op.0;
    let lt = spec_value_type(*ex.lhs);
    let rt = spec_value_type(*ex.rhs);
    let return_bool = ex.modifier matches Some(m) && m.return_bool;
    let matching_on = ex.modifier matches Some(m) && spec_is_matching_on(m);
    let joint = ex.modifier matches Some(m) && spec_is_labels_joint(m);
    let matching_not_empty = ex.modifier matches Some(m) && spec_is_matching_labels_not_empty(m);
    if !spec_is_operator(op) {
        Err("binary expression does not support operator '"@ + spec_token_display(op) + "'"@)
    } else if return_bool && !spec_is_comparison_operator(op) {
        Err("bool modifier can only be used on comparison operators"@)
    } else if spec_is_comparison_operator(op) && lt == ValueType::Scalar && rt
        == ValueType::Scalar && !return_bool {
        Err("comparisons between scalars must use BOOL modifier"@)
    } else if matching_on && joint {
        let m = ex.modifier.unwrap();
        let common = spec_intersect(
            card_labels(m.card).unwrap()@,
            modifier_labels(m.matching.unwrap())@,
        );
        Err("label '"@ + common[0] + "' must not occur in ON and GROUP clause at once"@)
    } else if spec_is_set_operator(op) && (lt == ValueType::Scalar || rt == ValueType::Scalar) {
        Err("set operator '"@ + spec_token_display(op) + "' not allowed in binary scalar expression"@)
    } else if spec_is_set_operator(op) && lt == ValueType::Vector && rt == ValueType::Vector && (
    ex.modifier matches Some(m) && card_labels(m.card) is Some) {
        Err("no grouping allowed for '"@ + spec_token_display(op) + "' operation"@)
    } else if lt != ValueType::Scalar && lt != ValueType::Vector {
        Err("binary expression must contain only scalar and instant vector types"@)
    } else if rt != ValueType::Scalar && rt != ValueType::Vector {
        Err("binary expression must contain only scalar and instant vector types"@)
    } else if (lt != ValueType::Vector || rt != ValueType::Vector) && matching_not_empty {
        Err("vector matching only allowed between vectors"@)
    } else if spec_is_set_operator(op) {
        Ok(Expr::Binary(BinaryExpr { modifier: spec_set_op_modifier(ex.modifier), ..ex }))
    } else {
        Ok(Expr::Binary(ex))
    }
}

/// The outcome of checking an aggregation: the operator must aggregate, the aggregated
/// expression be a vector, the parameter of `topk`, `bottomk` and `quantile` a scalar and
/// that of `count_values` a string.
pub open spec fn spec_check_aggregate(ex: AggregateExpr) -> Result<Expr, Seq<char>> {
    let op = ex.op.0;
    let context = "aggregation expression"@;
    let param_type = match ex.param {
        Some(p) => Some(spec_value_type(*p)),
        None => None,
    };
    if !spec_is_aggregator(op) {
        Err(
            "aggregation operator expected in aggregation expression but got '"@
                + spec_token_display(op) + "'"@,
        )
    } else if spec_value_type(*ex.expr) != ValueType::Vector {
        Err(spec_expect_type_error(ValueType::Vector, Some(spec_value_type(*ex.expr)), context))
    } else if (op == T_TOPK || op == T_BOTTOMK || op == T_QUANTILE) && param_type != Some(
        ValueType::Scalar,
    ) {
        Err(spec_expect_type_error(ValueType::Scalar, param_type, context))
    } else if op == T_COUNT_VALUES && param_type != Some(ValueType::String) {
        Err(spec_expect_type_error(ValueType::String, param_type, context))
    } else {
        Ok(Expr::Aggregate(ex))
    }
}

/// The argument type that the argument at index `i` is checked against: optional
/// arguments beyond the listed types take the last one.
pub open spec fn spec_arg_type_index(i: int, n: int) -> int {
    if i >= n {
        n - 1
    } else {
        i
    }
}

/// The first index from `i` on whose argument does not have its expected type.
pub open spec fn spec_first_arg_mismatch(types: Seq<ValueType>, args: Seq<Box<Expr>>, i: int) -> Option<
    int,
>
    decreases args.len() - i,
{
    if i < 0 || i >= args.len() {
        None
    } else if spec_value_type(*args[i]) != types[spec_arg_type_index(i, types.len() as int)] {
        Some(i)
    } else {
        spec_first_arg_mismatch(types, args, i + 1)
    }
}

/// Whether the first argument of a call to `exp`, `ln`, `log2` or `log10` is a number at
/// which the function has a special value (NaN or an infinity, and for the logarithms
/// also numbers `<= 0`), so that the argument types are not checked.
pub open spec fn spec_special_case(name: Seq<char>, args: Seq<Box<Expr>>) -> bool {
    args.len() > 0 && match *args[0] {
        Expr::NumberLiteral(n) => if name == "exp"@ {
            f64_is_nan(n.val) || f64_is_infinite(n.val)
        } else if name == "ln"@ || name == "log2"@ || name == "log10"@ {
            f64_is_nan(n.val) || f64_is_infinite(n.val) || f64_le_zero(n.val)
        } else {
            false
        },
        _ => false,
    }
}

/// Whether a call can be checked: a variadic function has at least one argument type.
pub open spec fn call_checkable(c: Call) -> bool {
    c.func.variadic != 0 ==> c.func.arg_types@.len() >= 1
}

/// The outcome of checking a call: the number of arguments must fit the signature, and
/// every argument have its type (but see `spec_special_case`).
pub open spec fn spec_check_call(ex: Call) -> Result<Expr, Seq<char>> {
    let n = ex.func.arg_types@.len() as int;
    let k = ex.args.args@.len() as int;
    let v = ex.func.variadic as int;
    let name = ex.func.name@;
    if v != 0 && n - 1 > k {
        Err(
            "expected at least "@ + spec_decimal_string((n - 1) as nat)
                + " argument(s) in call to '"@ + name + "', got "@ + spec_decimal_string(k as nat),
        )
    } else if v > 0 && k > n - 1 + v {
        Err(
            "expected at most "@ + spec_decimal_string((n - 1 + v) as nat)
                + " argument(s) in call to '"@ + name + "', got "@ + spec_decimal_string(k as nat),
        )
    } else if v == 0 && n != k {
        Err(
            "expected "@ + spec_decimal_string(n as nat) + " argument(s) in call to '"@ + name
                + "', got "@ + spec_decimal_string(k as nat),
        )
    } else if spec_special_case(name, ex.args.args@) {
        Ok(Expr::Call(ex))
    } else {
        match spec_first_arg_mismatch(ex.func.arg_types@, ex.args.args@, 0) {
            Some(i) => Err(
                spec_expect_type_error(
                    ex.func.arg_types@[spec_arg_type_index(i, n)],
                    Some(spec_value_type(*ex.args.args@[i])),
                    "call to function '"@ + name + "'"@,
                ),
            ),
            None => Ok(Expr::Call(ex)),
        }
    }
}

/// The outcome of checking a vector selector: a metric name may not be given both as
/// the name and as a `__name__` matcher, and without a name some matcher must not
/// match the empty label value.
pub open spec fn spec_check_vector_selector(vs: VectorSelector) -> Result<Expr, Seq<char>> {
    match vs.name {
        Some(name) => match spec_find_matcher(vs.matchers.matchers@, METRIC_NAME@, 0) {
            Some(val) => Err(
                "metric name must not be set twice: '"@ + name@ + "' or '"@ + val + "'"@,
            ),
            None => Ok(Expr::VectorSelector(vs)),
        },
        None => if spec_is_empty_matchers(vs.matchers.matchers@) {
            Err("vector selector must contain at least one non-empty matcher"@)
        } else {
            Ok(Expr::VectorSelector(vs))
        },
    }
}

/// The outcome of checking the expression `e` (its own node; the operands were checked
/// when they were built).
pub open spec fn spec_check_ast(e: Expr) -> Result<Expr, Seq<char>> {
    match e {
        Expr::Binary(b) => spec_check_binary(b),
        Expr::Aggregate(a) => spec_check_aggregate(a),
        Expr::Call(c) => spec_check_call(c),
        Expr::Unary(u) => {
            let t = spec_value_type(*u.expr);
            if t != ValueType::Scalar && t != ValueType::Vector {
                Err(
                    "unary expression only allowed on expressions of type scalar or vector, got "@
                        + value_type_name(t),
                )
            } else {
                Ok(Expr::Unary(u))
            }
        },
        Expr::Subquery(sq) => {
            let t = spec_value_type(*sq.expr);
            if t != ValueType::Vector {
                Err("subquery is only allowed on vector, got "@ + value_type_name(t) + " instead"@)
            } else {
                Ok(Expr::Subquery(sq))
            }
        },
        Expr::VectorSelector(vs) => spec_check_vector_selector(vs),
        _ => Ok(e),
    }
}

/// Checks the node `expr` (including the types of its operands) and returns it, with the
/// matching of a set operation made many-to-many.
pub fn check_ast(expr: Expr) -> (r: Result<Expr, String>)
    requires
        expr matches Expr::Call(c) ==> call_checkable(c),
    ensures
        same_outcome(r, spec_check_ast(expr)),
{
    match expr {
        Expr::Binary(ex) => check_ast_for_binary_expr(ex),
        Expr::Aggregate(ex) => check_ast_for_aggregate_expr(ex),
        Expr::Call(ex) => check_ast_for_call(ex),
        Expr::Unary(ex) => check_ast_for_unary(ex),
        Expr::Subquery(ex) => check_ast_for_subquery(ex),
        Expr::VectorSelector(ex) => check_ast_for_vector_selector(ex),
        _ => Ok(expr),
    }
}

fn check_ast_for_binary_expr(ex: BinaryExpr) -> (r: Result<Expr, String>)
    ensures
        same_outcome(r, spec_check_binary(ex)),
{
    let lt = ex.lhs.value_type();
    let rt = ex.rhs.value_type();
    if !ex.op.is_operator() {
        let mut e = str_to_string("binary expression does not support operator '");
        append_str(&mut e, token_display(ex.op.0));
        append_str(&mut e, "'");
        return Err(e);
    }
    if ex.return_bool() && !ex.op.is_comparison_operator() {
        return err_text("bool modifier can only be used on comparison operators");
    }
    if ex.op.is_comparison_operator() && lt == ValueType::Scalar && rt == ValueType::Scalar
        && !ex.return_bool() {
        return err_text("comparisons between scalars must use BOOL modifier");
    }
    if ex.is_matching_on() && ex.is_labels_joint() {
        if let Some(labels) = ex.intersect_labels() {
            proof {
                let m = ex.modifier.unwrap();
                let a = card_labels(m.card).unwrap()@;
                let b = modifier_labels(m.matching.unwrap())@;
                let (i, j) = choose|i: int, j: int|
                    0 <= i < a.len() && 0 <= j < b.len() && a[i] == b[j];
                crate::label::lemma_intersect_contains(a, b, a[i]);
            }
            if labels.len() > 0 {
                let mut e = str_to_string("label '");
                append_str(&mut e, labels[0].as_str());
                append_str(&mut e, "' must not occur in ON and GROUP clause at once");
                return Err(e);
            }
        }
    }
    if ex.op.is_set_operator() {
        if lt == ValueType::Scalar || rt == ValueType::Scalar {
            let mut e = str_to_string("set operator '");
            append_str(&mut e, token_display(ex.op.0));
            append_str(&mut e, "' not allowed in binary scalar expression");
            return Err(e);
        }
        if lt == ValueType::Vector && rt == ValueType::Vector {
            if let Some(modifier) = &ex.modifier {
                if matches!(modifier.card, VectorMatchCardinality::OneToMany(_))
                    || matches!(modifier.card, VectorMatchCardinality::ManyToOne(_)) {
                    let mut e = str_to_string("no grouping allowed for '");
                    append_str(&mut e, token_display(ex.op.0));
                    append_str(&mut e, "' operation");
                    return Err(e);
                }
            }
        }
    }
    if lt != ValueType::Scalar && lt != ValueType::Vector {
        return err_text("binary expression must contain only scalar and instant vector types");
    }
    if rt != ValueType::Scalar && rt != ValueType::Vector {
        return err_text("binary expression must contain only scalar and instant vector types");
    }
    if (lt != ValueType::Vector || rt != ValueType::Vector) && ex.is_matching_labels_not_empty() {
        return err_text("vector matching only allowed between vectors");
    }
    if ex.op.is_set_operator() {
        let modifier = match ex.modifier {
            Some(m) => {
                if matches!(m.card, VectorMatchCardinality::OneToOne) {
                    Some(
                        BinModifier {
                            card: VectorMatchCardinality::ManyToMany,
                            matching: m.matching,
                            return_bool: m.return_bool,
                        },
                    )
                } else {
                    Some(m)
                }
            },
            None => Some(
                BinModifier {
                    card: VectorMatchCardinality::ManyToMany,
                    matching: None,
                    return_bool: false,
                },
            ),
        };
        Ok(Expr::Binary(BinaryExpr { op: ex.op, lhs: ex.lhs, rhs: ex.rhs, modifier }))
    } else {
        Ok(Expr::Binary(ex))
    }
}

fn check_ast_for_aggregate_expr(ex: AggregateExpr) -> (r: Result<Expr, String>)
    ensures
        same_outcome(r, spec_check_aggregate(ex)),
{
    if !ex.op.is_aggregator() {
        let mut e = str_to_string(
            "aggregation operator expected in aggregation expression but got '",
        );
        append_str(&mut e, token_display(ex.op.0));
        append_str(&mut e, "'");
        return Err(e);
    }
    let context = "aggregation expression";
    if let Err(e) = expect_type(ValueType::Vector, Some(ex.expr.value_type()), context) {
        return Err(e);
    }
    let param_type = match &ex.param {
        Some(p) => Some(p.value_type()),
        None => None,
    };
    let id = ex.op.id();
    if id == T_TOPK || id == T_BOTTOMK || id == T_QUANTILE {
        if let Err(e) = expect_type(ValueType::Scalar, param_type, context) {
            return Err(e);
        }
    }
    if id == T_COUNT_VALUES {
        if let Err(e) = expect_type(ValueType::String, param_type, context) {
            return Err(e);
        }
    }
    Ok(Expr::Aggregate(ex))
}

fn check_ast_for_call(ex: Call) -> (r: Result<Expr, String>)
    requires
        call_checkable(ex),
    ensures
        same_outcome(r, spec_check_call(ex)),
{
    let n = ex.func.arg_types.len();
    let k = ex.args.len();
    let name = ex.func.name;
    let v = ex.func.variadic;
    if v != 0 {
        if n - 1 > k {
            let mut e = str_to_string("expected at least ");
            append_decimal(&mut e, (n - 1) as u128);
            append_str(&mut e, " argument(s) in call to '");
            append_str(&mut e, name);
            append_str(&mut e, "', got ");
            append_decimal(&mut e, k as u128);
            return Err(e);
        }
        if v > 0 && (k as u128) > (n - 1) as u128 + v as u128 {
            let mut e = str_to_string("expected at most ");
            append_decimal(&mut e, (n - 1) as u128 + v as u128);
            append_str(&mut e, " argument(s) in call to '");
            append_str(&mut e, name);
            append_str(&mut e, "', got ");
            append_decimal(&mut e, k as u128);
            return Err(e);
        }
    }
    if v == 0 && n != k {
        let mut e = str_to_string("expected ");
        append_decimal(&mut e, n as u128);
        append_str(&mut e, " argument(s) in call to '");
        append_str(&mut e, name);
        append_str(&mut e, "', got ");
        append_decimal(&mut e, k as u128);
        return Err(e);
    }
    let special = if k > 0 {
        match &*ex.args.args[0] {
            Expr::NumberLiteral(num) => {
                if str_eq(name, "exp") {
                    num.is_nan() || num.is_infinite()
                } else if str_eq(name, "ln") || str_eq(name, "log2") || str_eq(name, "log10") {
                    num.is_nan() || num.is_infinite() || num.is_le_zero()
                } else {
                    false
                }
            },
            _ => false,
        }
    } else {
        false
    };
    assert(special == spec_special_case(name@, ex.args.args@));
    if special {
        return Ok(Expr::Call(ex));
    }
    let mut i: usize = 0;
    while i < k
        invariant
            i <= k,
            k == ex.args.args@.len(),
            n == ex.func.arg_types@.len(),
            n >= 1 || k == 0,
            spec_first_arg_mismatch(ex.func.arg_types@, ex.args.args@, 0)
                == spec_first_arg_mismatch(ex.func.arg_types@, ex.args.args@, i as int),
            name == ex.func.name,
            spec_check_call(ex) == match spec_first_arg_mismatch(
                ex.func.arg_types@,
                ex.args.args@,
                0,
            ) {
                Some(j) => Err(
                    spec_expect_type_error(
                        ex.func.arg_types@[spec_arg_type_index(j, n as int)],
                        Some(spec_value_type(*ex.args.args@[j])),
                        "call to function '"@ + name@ + "'"@,
                    ),
                ),
                None => Ok(Expr::Call(ex)),
            },
        decreases k - i,
    {
        let idx = if i >= n {
            n - 1
        } else {
            i
        };
        let t = ex.args.args[i].value_type();
        if t != ex.func.arg_types[idx] {
            let mut context = str_to_string("call to function '");
            append_str(&mut context, name);
            append_str(&mut context, "'");
            assert(spec_first_arg_mismatch(ex.func.arg_types@, ex.args.args@, i as int) == Some(
                i as int,
            ));
            assert(spec_arg_type_index(i as int, n as int) == idx);
            let res = expect_type(ex.func.arg_types[idx], Some(t), context.as_str());
            match res {
                Err(e) => return Err(e),
                Ok(_) => {},
            }
        }
        i = i + 1;
    }
    Ok(Expr::Call(ex))
}

fn check_ast_for_unary(ex: UnaryExpr) -> (r: Result<Expr, String>)
    ensures
        same_outcome(r, spec_check_ast(Expr::Unary(ex))),
{
    let t = ex.expr.value_type();
    if t != ValueType::Scalar && t != ValueType::Vector {
        let mut e = str_to_string(
            "unary expression only allowed on expressions of type scalar or vector, got ",
        );
        let tn = t.to_string();
        append_str(&mut e, tn.as_str());
        return Err(e);
    }
    Ok(Expr::Unary(ex))
}

fn check_ast_for_subquery(ex: SubqueryExpr) -> (r: Result<Expr, String>)
    ensures
        same_outcome(r, spec_check_ast(Expr::Subquery(ex))),
{
    let t = ex.expr.value_type();
    if t != ValueType::Vector {
        let mut e = str_to_string("subquery is only allowed on vector, got ");
        let tn = t.to_string();
        append_str(&mut e, tn.as_str());
        append_str(&mut e, " instead");
        return Err(e);
    }
    Ok(Expr::Subquery(ex))
}

fn check_ast_for_vector_selector(ex: VectorSelector) -> (r: Result<Expr, String>)
    ensures
        same_outcome(r, spec_check_vector_selector(ex)),
{
    match &ex.name {
        Some(name) => match ex.matchers.find_matcher(METRIC_NAME) {
            Some(val) => {
                let mut e = str_to_string("metric name must not be set twice: '");
                append_str(&mut e, name.as_str());
                append_str(&mut e, "' or '");
                append_str(&mut e, val.as_str());
                append_str(&mut e, "'");
                Err(e)
            },
            None => Ok(Expr::VectorSelector(ex)),
        },
        None => {
            if ex.matchers.is_empty_matchers() {
                err_text("vector selector must contain at least one non-empty matcher")
            } else {
                Ok(Expr::VectorSelector(ex))
            }
        },
    }
}


/// An `@` modifier can be set only once: once it is set, setting it again fails.
pub proof fn lemma_at_set_once(e: Expr, a: AtModifier, b: AtModifier)
    requires
        spec_at_expr(e, a) is Ok,
    ensures
        spec_at_expr(spec_at_expr(e, a)->Ok_0, b) == Err::<Expr, Seq<char>>(at_set_twice()),
{
}

/// An offset can be set only once: once it is set, setting it again fails.
pub proof fn lemma_offset_set_once(e: Expr, a: Offset, b: Offset)
    requires
        spec_offset_expr(e, a) is Ok,
    ensures
        spec_offset_expr(spec_offset_expr(e, a)->Ok_0, b) == Err::<Expr, Seq<char>>(
            offset_set_twice(),
        ),
{
}

/// Setting the `@` modifier and the offset gives the same expression in either order.
pub proof fn lemma_at_offset_commute(e: Expr, a: AtModifier, o: Offset)
    requires
        spec_at_expr(e, a) is Ok,
        spec_offset_expr(e, o) is Ok,
    ensures
        spec_offset_expr(spec_at_expr(e, a)->Ok_0, o) is Ok,
        spec_at_expr(spec_offset_expr(e, o)->Ok_0, a) is Ok,
        spec_offset_expr(spec_at_expr(e, a)->Ok_0, o)->Ok_0 == spec_at_expr(
            spec_offset_expr(e, o)->Ok_0,
            a,
        )->Ok_0,
{
}

/// Negating a number literal twice gives it back.
pub proof fn lemma_neg_neg_number(n: NumberLiteral)
    ensures
        spec_neg(spec_neg(Expr::NumberLiteral(n))) == Expr::NumberLiteral(n),
{
}

/// Checking an expression that passed the check changes nothing: the check is
/// idempotent, and it keeps the value type.
pub proof fn lemma_check_ast_idempotent(e: Expr)
    requires
        spec_check_ast(e) is Ok,
    ensures
        spec_check_ast(spec_check_ast(e)->Ok_0) == spec_check_ast(e),
        spec_value_type(spec_check_ast(e)->Ok_0) == spec_value_type(e),
{
    match e {
        Expr::Binary(b) => {
            let m2 = spec_set_op_modifier(b.modifier);
            if spec_is_set_operator(b.op.0) {
                let b2 = BinaryExpr { modifier: m2, ..b };
                assert(spec_check_ast(e)->Ok_0 == Expr::Binary(b2));
            }
        },
        _ => {},
    }
}

/// An aggregation by `topk`, `bottomk` or `quantile` passes the check only with a
/// parameter of type scalar; over a vector operand, with no parameter or one of another
/// type, the check fails with the error that a scalar was expected.
pub proof fn lemma_check_aggregate_scalar_param(a: AggregateExpr)
    requires
        a.op.0 == T_TOPK || a.op.0 == T_BOTTOMK || a.op.0 == T_QUANTILE,
    ensures
        spec_check_ast(Expr::Aggregate(a)) is Ok ==> (a.param matches Some(p) && spec_value_type(*p)
            == ValueType::Scalar),
        spec_value_type(*a.expr) == ValueType::Vector && !(a.param matches Some(p)
            && spec_value_type(*p) == ValueType::Scalar) ==> spec_check_ast(Expr::Aggregate(a))
            == Err::<Expr, Seq<char>>(
            "expected type scalar in aggregation expression, got "@ + match a.param {
                Some(p) => value_type_name(spec_value_type(*p)),
                None => "None"@,
            },
        ),
{
    reveal_strlit("expected type ");
    reveal_strlit("scalar");
    reveal_strlit(" in ");
    reveal_strlit("aggregation expression");
    reveal_strlit(", got ");
    reveal_strlit("expected type scalar in aggregation expression, got ");
    let actual = match a.param {
        Some(p) => value_type_name(spec_value_type(*p)),
        None => "None"@,
    };
    assert("expected type "@ + value_type_name(ValueType::Scalar) + " in "@
        + "aggregation expression"@ + ", got "@ + actual
        =~= "expected type scalar in aggregation expression, got "@ + actual);
}

/// An aggregation that passes the check has an aggregation operator and a vector operand;
/// `count_values` also needs a parameter of type string, and `topk`, `bottomk` and
/// `quantile` one of type scalar. The check gives the aggregation back unchanged.
pub proof fn lemma_check_aggregate_types(a: AggregateExpr)
    ensures
        spec_check_ast(Expr::Aggregate(a)) is Ok ==> {
            &&& spec_is_aggregator(a.op.0)
            &&& spec_value_type(*a.expr) == ValueType::Vector
            &&& a.op.0 == T_COUNT_VALUES ==> (a.param matches Some(p) && spec_value_type(*p)
                == ValueType::String)
            &&& (a.op.0 == T_TOPK || a.op.0 == T_BOTTOMK || a.op.0 == T_QUANTILE) ==> (a.param matches Some(p)
                && spec_value_type(*p) == ValueType::Scalar)
            &&& spec_check_ast(Expr::Aggregate(a)) == Ok::<Expr, Seq<char>>(Expr::Aggregate(a))
        },
{
}

/// A binary expression passes the check only if its operator is a binary operator, its
/// operands are scalars or instant vectors, a `bool` modifier stands on a comparison, two
/// scalars are compared only with `bool`, a set operator joins two vectors without
/// grouping, and vector matching joins two vectors. An arithmetic operation between
/// scalars and vectors without a modifier passes.
pub proof fn lemma_check_binary_types(b: BinaryExpr)
    ensures
        spec_check_ast(Expr::Binary(b)) is Ok ==> {
            let lt = spec_value_type(*b.lhs);
            let rt = spec_value_type(*b.rhs);
            let return_bool = b.modifier matches Some(m) && m.return_bool;
            &&& spec_is_operator(b.op.0)
            &&& (lt == ValueType::Scalar || lt == ValueType::Vector)
            &&& (rt == ValueType::Scalar || rt == ValueType::Vector)
            &&& return_bool ==> spec_is_comparison_operator(b.op.0)
            &&& (spec_is_comparison_operator(b.op.0) && lt == ValueType::Scalar && rt
                == ValueType::Scalar) ==> return_bool
            &&& spec_is_set_operator(b.op.0) ==> lt == ValueType::Vector && rt == ValueType::Vector
                && !(b.modifier matches Some(m) && card_labels(m.card) is Some)
            &&& (b.modifier matches Some(m) && spec_is_matching_labels_not_empty(m)) ==> lt
                == ValueType::Vector && rt == ValueType::Vector
        },
        (spec_is_operator(b.op.0) && !spec_is_comparison_operator(b.op.0) && !spec_is_set_operator(
            b.op.0,
        ) && b.modifier is None && (spec_value_type(*b.lhs) == ValueType::Scalar || spec_value_type(
            *b.lhs,
        ) == ValueType::Vector) && (spec_value_type(*b.rhs) == ValueType::Scalar || spec_value_type(
            *b.rhs,
        ) == ValueType::Vector)) ==> spec_check_ast(Expr::Binary(b)) == Ok::<Expr, Seq<char>>(
            Expr::Binary(b),
        ),
{
}

/// The first mismatch from `i` on is none exactly when every argument from `i` on has its
/// expected type.
proof fn lemma_first_arg_mismatch(types: Seq<ValueType>, args: Seq<Box<Expr>>, i: int)
    requires
        0 <= i,
    ensures
        spec_first_arg_mismatch(types, args, i) is None <==> forall|k: int|
            i <= k < args.len() ==> spec_value_type(*#[trigger] args[k])
                == types[spec_arg_type_index(k, types.len() as int)],
    decreases args.len() - i,
{
    if i < args.len() {
        lemma_first_arg_mismatch(types, args, i + 1);
    }
}

/// A call to a function of fixed arity passes the check only with as many arguments as
/// the function takes; and a call whose arguments have the function's argument types, in
/// number and in order, passes.
pub proof fn lemma_check_call_arguments(c: Call)
    requires
        c.func.variadic == 0,
    ensures
        spec_check_ast(Expr::Call(c)) is Ok ==> c.args.args@.len() == c.func.arg_types@.len(),
        (c.args.args@.len() == c.func.arg_types@.len() && forall|k: int|
            0 <= k < c.args.args@.len() ==> spec_value_type(*#[trigger] c.args.args@[k])
                == c.func.arg_types@[k]) ==> spec_check_ast(Expr::Call(c)) == Ok::<Expr, Seq<char>>(
            Expr::Call(c),
        ),
{
    lemma_first_arg_mismatch(c.func.arg_types@, c.args.args@, 0);
}

} // verus!
