//! The text of expressions, on one line or pretty-printed over several.
//!
//! A finite number is written by a renderer that the caller passes in (the library holds
//! numbers as their binary64 encodings); infinities and NaN are written here.
use vstd::prelude::*;

use crate::label::matcher::spec_matchers_text;
use crate::label::Labels;
use crate::parser::ast::{
    f64_is_infinite, f64_is_nan, f64_sign, spec_at_text, spec_offset_text, AggregateExpr,
    BinModifier, BinaryExpr, Expr, LabelModifier, MatrixSelector, SubqueryExpr,
    VectorMatchCardinality, VectorSelector,
};
use crate::parser::token::spec_token_display;
use crate::util::duration::{display_duration, spec_display_duration};
use crate::util::text::{
    append_str, byte_len, spec_indent, spec_is_whitespace, spec_join, spec_trim_end,
    spec_trim_start, str_to_string, text_byte_len, trim_end, trim_start,
};

verus! {

/// Whether the closure `f` writes every encoding `b` as `g(b)`.
pub open spec fn renders<F: Fn(u64) -> String>(f: F, g: spec_fn(u64) -> Seq<char>) -> bool {
    forall|b: u64, r: String| f.ensures((b,), r) ==> r@ == g(b)
}

/// The text of a number: `Inf`, `-Inf`, `NaN`, or what `num` writes for a finite one.
pub open spec fn spec_number_text(b: u64, num: spec_fn(u64) -> Seq<char>) -> Seq<char> {
    if f64_is_infinite(b) && !f64_sign(b) {
        "Inf"@
    } else if f64_is_infinite(b) {
        "-Inf"@
    } else if f64_is_nan(b) {
        "NaN"@
    } else {
        num(b)
    }
}

/// The text of a label list: the names separated by `", "`.
pub open spec fn spec_labels_text(l: Labels) -> Seq<char> {
    spec_join(l@, ", "@)
}

/// The operator of an aggregation with its grouping: ` without (<labels>) `, or
/// ` by (<labels>) ` for a non-empty `by` list.
pub open spec fn spec_aggr_op_text(a: AggregateExpr) -> Seq<char> {
    spec_token_display(a.op.0) + match a.modifier {
        Some(LabelModifier::Exclude(ls)) => " without ("@ + spec_labels_text(ls) + ") "@,
        Some(LabelModifier::Include(ls)) => if ls@.len() > 0 {
            " by ("@ + spec_labels_text(ls) + ") "@
        } else {
            Seq::empty()
        },
        None => Seq::empty(),
    }
}

/// The words of a binary modifier before trimming: `bool `, `on (..) ` or a non-empty
/// `ignoring (..) `, then `group_left (..) ` or `group_right (..) `.
pub open spec fn spec_bin_modifier_words(m: BinModifier) -> Seq<char> {
    let b = if m.return_bool {
        "bool "@
    } else {
        Seq::empty()
    };
    let matching = match m.matching {
        Some(LabelModifier::Include(ls)) => "on ("@ + spec_labels_text(ls) + ") "@,
        Some(LabelModifier::Exclude(ls)) => if ls@.len() > 0 {
            "ignoring ("@ + spec_labels_text(ls) + ") "@
        } else {
            Seq::empty()
        },
        None => Seq::empty(),
    };
    let card = match m.card {
        VectorMatchCardinality::ManyToOne(ls) => "group_left ("@ + spec_labels_text(ls) + ") "@,
        VectorMatchCardinality::OneToMany(ls) => "group_right ("@ + spec_labels_text(ls) + ") "@,
        _ => Seq::empty(),
    };
    b + matching + card
}

/// The text of a binary modifier: empty when it has no words, else a space and the words
/// without trailing whitespace.
pub open spec fn spec_bin_modifier_text(m: BinModifier) -> Seq<char> {
    let w = spec_bin_modifier_words(m);
    if spec_trim_end(w).len() == 0 {
        Seq::empty()
    } else {
        " "@ + spec_trim_end(w)
    }
}

/// The operator of a binary expression with its modifier.
pub open spec fn spec_op_matching_text(b: BinaryExpr) -> Seq<char> {
    spec_token_display(b.op.0) + match b.modifier {
        Some(m) => spec_bin_modifier_text(m),
        None => Seq::empty(),
    }
}

/// ` <at>` and ` offset <offset>` for the modifiers that are set.
pub open spec fn spec_time_modifiers_text(
    at: Option<crate::parser::ast::AtModifier>,
    offset: Option<crate::parser::ast::Offset>,
) -> Seq<char> {
    (match at {
        Some(a) => " "@ + spec_at_text(a),
        None => Seq::empty(),
    }) + match offset {
        Some(o) => " offset "@ + spec_offset_text(o),
        None => Seq::empty(),
    }
}

/// The name and the matchers (in braces, when there are any) of a selector.
pub open spec fn spec_selector_head(vs: VectorSelector) -> Seq<char> {
    let m = spec_matchers_text(vs.matchers.matchers@);
    (match vs.name {
        Some(n) => n@,
        None => Seq::empty(),
    }) + if m.len() > 0 {
        "{"@ + m + "}"@
    } else {
        Seq::empty()
    }
}

/// The text of a vector selector.
pub open spec fn spec_vector_selector_text(vs: VectorSelector) -> Seq<char> {
    spec_selector_head(vs) + spec_time_modifiers_text(vs.at, vs.offset)
}

/// The text of a matrix selector: the range comes before the modifiers.
pub open spec fn spec_matrix_selector_text(ms: MatrixSelector) -> Seq<char> {
    spec_selector_head(ms.vs) + "["@ + spec_display_duration(ms.range@) + "]"@
        + spec_time_modifiers_text(ms.vs.at, ms.vs.offset)
}

/// What follows the expression of a subquery: `[<range>:<step>]` and the modifiers.
pub open spec fn spec_subquery_suffix(sq: SubqueryExpr) -> Seq<char> {
    "["@ + spec_display_duration(sq.range@) + ":"@ + (match sq.step {
        Some(d) => spec_display_duration(d@),
        None => Seq::empty(),
    }) + "]"@ + spec_time_modifiers_text(sq.at, sq.offset)
}

/// The one-line text of `e`.
pub open spec fn spec_expr_text(e: Expr, num: spec_fn(u64) -> Seq<char>) -> Seq<char>
    decreases e,
{
    match e {
        Expr::Aggregate(a) => spec_aggr_op_text(a) + "("@ + (match a.param {
            Some(p) => spec_expr_text(*p, num) + ", "@,
            None => Seq::empty(),
        }) + spec_expr_text(*a.expr, num) + ")"@,
        Expr::Unary(u) => "-"@ + spec_expr_text(*u.expr, num),
        Expr::Binary(b) => spec_expr_text(*b.lhs, num) + " "@ + spec_op_matching_text(b) + " "@
            + spec_expr_text(*b.rhs, num),
        Expr::Paren(p) => "("@ + spec_expr_text(*p.expr, num) + ")"@,
        Expr::Subquery(sq) => spec_expr_text(*sq.expr, num) + spec_subquery_suffix(sq),
        Expr::NumberLiteral(n) => spec_number_text(n.val, num),
        Expr::StringLiteral(s) => "\""@ + s.val@ + "\""@,
        Expr::VectorSelector(vs) => spec_vector_selector_text(vs),
        Expr::MatrixSelector(ms) => spec_matrix_selector_text(ms),
        Expr::Call(c) => c.func.name@ + "("@ + spec_args_text(c.args.args@, num) + ")"@,
    }
}

/// The texts of the arguments, separated by `", "`.
pub open spec fn spec_args_text(args: Seq<Box<Expr>>, num: spec_fn(u64) -> Seq<char>) -> Seq<
    char,
>
    decreases args,
{
    if args.len() == 0 {
        Seq::empty()
    } else if args.len() == 1 {
        spec_expr_text(*args[0], num)
    } else {
        spec_args_text(args.drop_last(), num) + ", "@ + spec_expr_text(*args.last(), num)
    }
}


/// `s` followed by `prefix`, the label list and `suffix`.
fn append_labels(s: &mut String, prefix: &str, ls: &Labels, suffix: &str)
    ensures
        final(s)@ == old(s)@ + prefix@ + spec_labels_text(*ls) + suffix@,
{
    append_str(s, prefix);
    let t = ls.to_string();
    append_str(s, t.as_str());
    append_str(s, suffix);
}

/// The operator of an aggregation with its grouping.
pub fn aggr_op_text(a: &AggregateExpr) -> (s: String)
    ensures
        s@ == spec_aggr_op_text(*a),
{
    let mut s = a.op.to_string();
    match &a.modifier {
        Some(LabelModifier::Exclude(ls)) => append_labels(&mut s, " without (", ls, ") "),
        Some(LabelModifier::Include(ls)) => {
            if !ls.is_empty() {
                append_labels(&mut s, " by (", ls, ") ");
            }
        },
        None => {},
    }
    s
}

impl BinModifier {
    /// The text of the modifier, with a leading space when it is not empty.
    pub fn to_string(&self) -> (s: String)
        ensures
            s@ == spec_bin_modifier_text(*self),
    {
        proof {
            reveal_strlit("");
        }
        let mut w = str_to_string(self.bool_str());
        match &self.matching {
            Some(LabelModifier::Include(ls)) => append_labels(&mut w, "on (", ls, ") "),
            Some(LabelModifier::Exclude(ls)) => {
                if !ls.is_empty() {
                    append_labels(&mut w, "ignoring (", ls, ") ");
                }
            },
            None => {},
        }
        match &self.card {
            VectorMatchCardinality::ManyToOne(ls) => append_labels(&mut w, "group_left (", ls, ") "),
            VectorMatchCardinality::OneToMany(ls) => append_labels(
                &mut w,
                "group_right (",
                ls,
                ") ",
            ),
            _ => {},
        }
        assert(w@ == spec_bin_modifier_words(*self));
        let t = trim_end(w.as_str());
        if t.as_str().is_empty() {
            str_to_string("")
        } else {
            let mut s = str_to_string(" ");
            append_str(&mut s, t.as_str());
            s
        }
    }
}

/// The operator of a binary expression with its modifier.
pub fn op_matching_text(b: &BinaryExpr) -> (s: String)
    ensures
        s@ == spec_op_matching_text(*b),
{
    let mut s = b.op.to_string();
    if let Some(m) = &b.modifier {
        let t = m.to_string();
        append_str(&mut s, t.as_str());
    }
    s
}

/// Appends ` <at>` and ` offset <offset>` for the modifiers that are set.
fn append_time_modifiers(
    s: &mut String,
    at: &Option<crate::parser::ast::AtModifier>,
    offset: &Option<crate::parser::ast::Offset>,
)
    ensures
        final(s)@ == old(s)@ + spec_time_modifiers_text(*at, *offset),
{
    let ghost s0 = s@;
    if let Some(a) = at {
        append_str(s, " ");
        let t = a.to_string();
        append_str(s, t.as_str());
    }
    let ghost s1 = s@;
    if let Some(o) = offset {
        append_str(s, " offset ");
        let t = o.to_string();
        append_str(s, t.as_str());
    }
    assert(s@ =~= s0 + spec_time_modifiers_text(*at, *offset));
}

/// The name and the matchers of a selector.
fn selector_head(vs: &VectorSelector) -> (s: String)
    ensures
        s@ == spec_selector_head(*vs),
{
    proof {
        reveal_strlit("");
    }
    let mut s = match &vs.name {
        Some(n) => str_to_string(n.as_str()),
        None => str_to_string(""),
    };
    let m = vs.matchers.to_string();
    if !m.as_str().is_empty() {
        append_str(&mut s, "{");
        append_str(&mut s, m.as_str());
        append_str(&mut s, "}");
    }
    s
}

impl VectorSelector {
    pub fn to_string(&self) -> (s: String)
        ensures
            s@ == spec_vector_selector_text(*self),
    {
        let mut s = selector_head(self);
        append_time_modifiers(&mut s, &self.at, &self.offset);
        s
    }
}

impl MatrixSelector {
    pub fn to_string(&self) -> (s: String)
        ensures
            s@ == spec_matrix_selector_text(*self),
    {
        let mut s = selector_head(&self.vs);
        append_str(&mut s, "[");
        let d = display_duration(&self.range);
        append_str(&mut s, d.as_str());
        append_str(&mut s, "]");
        append_time_modifiers(&mut s, &self.vs.at, &self.vs.offset);
        s
    }
}

/// What follows the expression of a subquery.
pub fn subquery_suffix(sq: &SubqueryExpr) -> (s: String)
    ensures
        s@ == spec_subquery_suffix(*sq),
{
    let mut s = str_to_string("[");
    let r = display_duration(&sq.range);
    append_str(&mut s, r.as_str());
    append_str(&mut s, ":");
    if let Some(step) = &sq.step {
        let t = display_duration(step);
        append_str(&mut s, t.as_str());
    }
    append_str(&mut s, "]");
    append_time_modifiers(&mut s, &sq.at, &sq.offset);
    s
}


/// The text of the number with encoding `b`.
fn number_text<F: Fn(u64) -> String>(b: u64, num: &F) -> (s: String)
    requires
        forall|x: u64| num.requires((x,)),
    ensures
        forall|g: spec_fn(u64) -> Seq<char>| renders(*num, g) ==> s@ == spec_number_text(b, g),
{
    let n = crate::parser::ast::NumberLiteral::new(b);
    if n.is_infinite() && b < 0x8000_0000_0000_0000 {
        str_to_string("Inf")
    } else if n.is_infinite() {
        str_to_string("-Inf")
    } else if n.is_nan() {
        str_to_string("NaN")
    } else {
        num(b)
    }
}

impl Expr {
    /// The one-line text of the expression; `num` writes the finite numbers.
    pub fn to_text<F: Fn(u64) -> String>(&self, num: &F) -> (s: String)
        requires
            forall|b: u64| num.requires((b,)),
        ensures
            forall|g: spec_fn(u64) -> Seq<char>| renders(*num, g) ==> s@ == spec_expr_text(*self, g),
        decreases self,
    {
        match self {
            Expr::Aggregate(a) => {
                let mut s = aggr_op_text(a);
                append_str(&mut s, "(");
                let ghost s0 = s@;
                if let Some(p) = &a.param {
                    let pt = p.to_text(num);
                    append_str(&mut s, pt.as_str());
                    append_str(&mut s, ", ");
                }
                let ghost s1 = s@;
                let t = a.expr.to_text(num);
                append_str(&mut s, t.as_str());
                append_str(&mut s, ")");
                assert forall|g: spec_fn(u64) -> Seq<char>| renders(*num, g) implies s@
                    == spec_expr_text(*self, g) by {
                    match a.param {
                        Some(p) => {
                            assert(s1 == s0 + spec_expr_text(*p, g) + ", "@);
                        },
                        None => {
                            assert(s1 == s0);
                        },
                    }
                    assert(s@ =~= s1 + spec_expr_text(*a.expr, g) + ")"@);
                }
                assert(forall|g: spec_fn(u64) -> Seq<char>| renders(*num, g) ==> s@ == spec_expr_text(*self, g));
                s
            },
            Expr::Unary(u) => {
                let mut s = str_to_string("-");
                let t = u.expr.to_text(num);
                append_str(&mut s, t.as_str());
                assert forall|g: spec_fn(u64) -> Seq<char>| renders(*num, g) implies s@ == spec_expr_text(
                    *self,
                    g,
                ) by {
                    assert(t@ == spec_expr_text(*u.expr, g));
                }
                s
            },
            Expr::Binary(b) => {
                let mut s = b.lhs.to_text(num);
                let ghost l0 = s@;
                append_str(&mut s, " ");
                let op = op_matching_text(b);
                append_str(&mut s, op.as_str());
                append_str(&mut s, " ");
                let t = b.rhs.to_text(num);
                append_str(&mut s, t.as_str());
                assert forall|g: spec_fn(u64) -> Seq<char>| renders(*num, g) implies s@ == spec_expr_text(
                    *self,
                    g,
                ) by {
                    assert(l0 == spec_expr_text(*b.lhs, g));
                    assert(t@ == spec_expr_text(*b.rhs, g));
                }
                s
            },
            Expr::Paren(p) => {
                let mut s = str_to_string("(");
                let t = p.expr.to_text(num);
                append_str(&mut s, t.as_str());
                append_str(&mut s, ")");
                assert forall|g: spec_fn(u64) -> Seq<char>| renders(*num, g) implies s@ == spec_expr_text(
                    *self,
                    g,
                ) by {
                    assert(t@ == spec_expr_text(*p.expr, g));
                }
                s
            },
            Expr::Subquery(sq) => {
                let mut s = sq.expr.to_text(num);
                let ghost e0 = s@;
                let t = subquery_suffix(sq);
                append_str(&mut s, t.as_str());
                assert forall|g: spec_fn(u64) -> Seq<char>| renders(*num, g) implies s@ == spec_expr_text(
                    *self,
                    g,
                ) by {
                    assert(e0 == spec_expr_text(*sq.expr, g));
                }
                s
            },
            Expr::NumberLiteral(n) => {
                let s = number_text(n.val, num);
                assert(forall|g: spec_fn(u64) -> Seq<char>| renders(*num, g) ==> s@ == spec_expr_text(*self, g));
                s
            },
            Expr::StringLiteral(l) => {
                let mut s = str_to_string("\"");
                append_str(&mut s, l.val.as_str());
                append_str(&mut s, "\"");
                assert(forall|g: spec_fn(u64) -> Seq<char>| renders(*num, g) ==> s@ == spec_expr_text(*self, g));
                s
            },
            Expr::VectorSelector(vs) => {
                let s = vs.to_string();
                assert(forall|g: spec_fn(u64) -> Seq<char>| renders(*num, g) ==> s@ == spec_expr_text(*self, g));
                s
            },
            Expr::MatrixSelector(ms) => {
                let s = ms.to_string();
                assert(forall|g: spec_fn(u64) -> Seq<char>| renders(*num, g) ==> s@ == spec_expr_text(*self, g));
                s
            },
            Expr::Call(c) => {
                let mut s = str_to_string(c.func.name);
                append_str(&mut s, "(");
                let t = args_text(&c.args.args, num);
                append_str(&mut s, t.as_str());
                append_str(&mut s, ")");
                assert(forall|g: spec_fn(u64) -> Seq<char>| renders(*num, g) ==> s@ == spec_expr_text(*self, g));
                s
            },
        }
    }
}

impl crate::parser::function::FunctionArgs {
    /// The texts of the arguments, separated by `", "`; `num` writes the finite numbers.
    pub fn to_text<F: Fn(u64) -> String>(&self, num: &F) -> (s: String)
        requires
            forall|b: u64| num.requires((b,)),
        ensures
            forall|g: spec_fn(u64) -> Seq<char>| renders(*num, g) ==> s@ == spec_args_text(
                self.args@,
                g,
            ),
    {
        args_text(&self.args, num)
    }
}

/// The texts of the arguments, separated by `", "`.
fn args_text<F: Fn(u64) -> String>(args: &Vec<Box<Expr>>, num: &F) -> (s: String)
    requires
        forall|b: u64| num.requires((b,)),
    ensures
        forall|g: spec_fn(u64) -> Seq<char>| renders(*num, g) ==> s@ == spec_args_text(args@, g),
    decreases args,
{
    proof {
        reveal_strlit("");
    }
    let mut s = str_to_string("");
    let mut i: usize = 0;
    assert(args@.take(0) =~= Seq::<Box<Expr>>::empty());
    while i < args.len()
        invariant
            i <= args.len(),
            forall|b: u64| num.requires((b,)),
            forall|g: spec_fn(u64) -> Seq<char>| renders(*num, g) ==> s@ == spec_args_text(
                args@.take(i as int),
                g,
            ),
        decreases args.len() - i,
    {
        let ghost s0 = s@;
        if i > 0 {
            append_str(&mut s, ", ");
        }
        proof {
            vstd::std_specs::vec::axiom_vec_index_decreases(*args, i as int);
        }
        let t = args[i].to_text(num);
        append_str(&mut s, t.as_str());
        let ghost t1 = args@.take(i + 1);
        assert(t1.drop_last() =~= args@.take(i as int));
        assert(t1.last() == args@[i as int]);
        assert forall|g: spec_fn(u64) -> Seq<char>| renders(*num, g) implies s@ == spec_args_text(
            t1,
            g,
        ) by {
            assert(t@ == spec_expr_text(*args@[i as int], g));
            if i == 0 {
                assert(t1[0] == args@[0]);
                assert(s@ =~= t@);
            } else {
                assert(s0 == spec_args_text(args@.take(i as int), g));
            }
        }
        i = i + 1;
    }
    assert(args@.take(args.len() as int) =~= args@);
    s
}


/// The most characters that a line of pretty-printed text should hold.
pub const MAX_CHARACTERS_PER_LINE: usize = 100;

/// Whether the one-line text of `e` is longer (in UTF-8 bytes) than `max`.
pub open spec fn spec_needs_split(e: Expr, max: nat, num: spec_fn(u64) -> Seq<char>) -> bool {
    byte_len(spec_expr_text(e, num)) > max
}

/// The text of `e` pretty-printed at depth `level`: a node whose one-line text fits in
/// `max` bytes is written on one line after `level` indentations; a longer one is split,
/// its operands one level deeper on lines of their own.
pub open spec fn spec_pretty(e: Expr, level: nat, max: nat, num: spec_fn(u64) -> Seq<char>) -> Seq<
    char,
>
    decreases e,
{
    let ind = spec_indent(level);
    let flat = ind + spec_expr_text(e, num);
    let split = spec_needs_split(e, max, num);
    match e {
        Expr::Aggregate(a) => if split {
            ind + spec_aggr_op_text(a) + "(\n"@ + (match a.param {
                Some(p) => spec_pretty(*p, level + 1, max, num) + ",\n"@,
                None => Seq::empty(),
            }) + spec_pretty(*a.expr, level + 1, max, num) + "\n"@ + ind + ")"@
        } else {
            flat
        },
        Expr::Unary(u) => ind + "-"@ + spec_trim_start(spec_pretty(*u.expr, level, max, num)),
        Expr::Binary(b) => if split {
            spec_pretty(*b.lhs, level + 1, max, num) + "\n"@ + ind + spec_op_matching_text(b)
                + "\n"@ + spec_pretty(*b.rhs, level + 1, max, num)
        } else {
            flat
        },
        Expr::Paren(p) => if split {
            ind + "(\n"@ + spec_pretty(*p.expr, level + 1, max, num) + "\n"@ + ind + ")"@
        } else {
            flat
        },
        Expr::Subquery(sq) => spec_pretty(*sq.expr, level, max, num) + spec_subquery_suffix(sq),
        Expr::Call(c) => if split {
            ind + c.func.name@ + "(\n"@ + spec_args_pretty(c.args.args@, level + 1, max, num)
                + "\n"@ + ind + ")"@
        } else {
            flat
        },
        _ => flat,
    }
}

/// The pretty texts of the arguments, separated by `",\n"`.
pub open spec fn spec_args_pretty(
    args: Seq<Box<Expr>>,
    level: nat,
    max: nat,
    num: spec_fn(u64) -> Seq<char>,
) -> Seq<char>
    decreases args,
{
    if args.len() == 0 {
        Seq::empty()
    } else if args.len() == 1 {
        spec_pretty(*args[0], level, max, num)
    } else {
        spec_args_pretty(args.drop_last(), level, max, num) + ",\n"@ + spec_pretty(
            *args.last(),
            level,
            max,
            num,
        )
    }
}

/// `ind` followed by one more indentation.
fn deeper(ind: &String, Ghost(level): Ghost<nat>) -> (r: String)
    requires
        ind@ == spec_indent(level),
    ensures
        r@ == spec_indent(level + 1),
{
    let mut r = str_to_string(ind.as_str());
    append_str(&mut r, "  ");
    proof {
        reveal_strlit("  ");
    }
    assert(r@ =~= spec_indent(level + 1));
    r
}

impl Expr {
    /// The pretty text of the expression at the depth whose indentation is `ind`.
    fn pretty_in<F: Fn(u64) -> String>(
        &self,
        ind: &String,
        max: usize,
        num: &F,
        Ghost(level): Ghost<nat>,
    ) -> (s: String)
        requires
            forall|b: u64| num.requires((b,)),
            ind@ == spec_indent(level),
        ensures
            forall|g: spec_fn(u64) -> Seq<char>| renders(*num, g) ==> s@ == spec_pretty(
                *self,
                level,
                max as nat,
                g,
            ),
        decreases self,
    {
        let flat = self.to_text(num);
        let split = text_byte_len(flat.as_str()) > max as u128;
        let mut s = str_to_string(ind.as_str());
        append_str(&mut s, flat.as_str());
        let ghost s_flat = s@;
        match self {
            Expr::Aggregate(a) => {
                if split {
                    let inner = deeper(ind, Ghost(level));
                    let mut s = str_to_string(ind.as_str());
                    let op = aggr_op_text(a);
                    append_str(&mut s, op.as_str());
                    append_str(&mut s, "(\n");
                    let ghost s0 = s@;
                    if let Some(p) = &a.param {
                        let pt = p.pretty_in(&inner, max, num, Ghost(level + 1));
                        append_str(&mut s, pt.as_str());
                        append_str(&mut s, ",\n");
                    }
                    let ghost s1 = s@;
                    let et = a.expr.pretty_in(&inner, max, num, Ghost(level + 1));
                    append_str(&mut s, et.as_str());
                    append_str(&mut s, "\n");
                    append_str(&mut s, ind.as_str());
                    append_str(&mut s, ")");
                    assert forall|g: spec_fn(u64) -> Seq<char>| renders(*num, g) implies s@
                        == spec_pretty(*self, level, max as nat, g) by {
                        assert(byte_len(flat@) == byte_len(spec_expr_text(*self, g)));
                        match a.param {
                            Some(p) => {
                                assert(s1 == s0 + spec_pretty(*p, level + 1, max as nat, g)
                                    + ",\n"@);
                            },
                            None => {
                                assert(s1 == s0);
                            },
                        }
                        assert(s@ =~= s1 + spec_pretty(*a.expr, level + 1, max as nat, g) + "\n"@
                            + ind@ + ")"@);
                    }
                    s
                } else {
                    assert(forall|g: spec_fn(u64) -> Seq<char>| renders(*num, g) ==> s@ == spec_pretty(*self, level, max as nat, g));
                    s
                }
            },
            Expr::Unary(u) => {
                let mut s = str_to_string(ind.as_str());
                append_str(&mut s, "-");
                let inner = u.expr.pretty_in(ind, max, num, Ghost(level));
                let t = trim_start(inner.as_str());
                append_str(&mut s, t.as_str());
                assert(forall|g: spec_fn(u64) -> Seq<char>| renders(*num, g) ==> s@ == spec_pretty(*self, level, max as nat, g));
                s
            },
            Expr::Binary(b) => {
                if split {
                    let inner = deeper(ind, Ghost(level));
                    let mut s = b.lhs.pretty_in(&inner, max, num, Ghost(level + 1));
                    append_str(&mut s, "\n");
                    append_str(&mut s, ind.as_str());
                    let op = op_matching_text(b);
                    append_str(&mut s, op.as_str());
                    append_str(&mut s, "\n");
                    let rt = b.rhs.pretty_in(&inner, max, num, Ghost(level + 1));
                    append_str(&mut s, rt.as_str());
                    assert(forall|g: spec_fn(u64) -> Seq<char>| renders(*num, g) ==> s@ == spec_pretty(*self, level, max as nat, g));
                    s
                } else {
                    assert(forall|g: spec_fn(u64) -> Seq<char>| renders(*num, g) ==> s@ == spec_pretty(*self, level, max as nat, g));
                    s
                }
            },
            Expr::Paren(p) => {
                if split {
                    let inner = deeper(ind, Ghost(level));
                    let mut s = str_to_string(ind.as_str());
                    append_str(&mut s, "(\n");
                    let et = p.expr.pretty_in(&inner, max, num, Ghost(level + 1));
                    append_str(&mut s, et.as_str());
                    append_str(&mut s, "\n");
                    append_str(&mut s, ind.as_str());
                    append_str(&mut s, ")");
                    assert(forall|g: spec_fn(u64) -> Seq<char>| renders(*num, g) ==> s@ == spec_pretty(*self, level, max as nat, g));
                    s
                } else {
                    assert(forall|g: spec_fn(u64) -> Seq<char>| renders(*num, g) ==> s@ == spec_pretty(*self, level, max as nat, g));
                    s
                }
            },
            Expr::Subquery(sq) => {
                let mut s = sq.expr.pretty_in(ind, max, num, Ghost(level));
                let t = subquery_suffix(sq);
                append_str(&mut s, t.as_str());
                assert(forall|g: spec_fn(u64) -> Seq<char>| renders(*num, g) ==> s@ == spec_pretty(*self, level, max as nat, g));
                s
            },
            Expr::Call(c) => {
                if split {
                    let inner = deeper(ind, Ghost(level));
                    let mut s = str_to_string(ind.as_str());
                    append_str(&mut s, c.func.name);
                    append_str(&mut s, "(\n");
                    let at = args_pretty(&c.args.args, &inner, max, num, Ghost(level + 1));
                    append_str(&mut s, at.as_str());
                    append_str(&mut s, "\n");
                    append_str(&mut s, ind.as_str());
                    append_str(&mut s, ")");
                    assert(forall|g: spec_fn(u64) -> Seq<char>| renders(*num, g) ==> s@ == spec_pretty(*self, level, max as nat, g));
                    s
                } else {
                    assert(forall|g: spec_fn(u64) -> Seq<char>| renders(*num, g) ==> s@ == spec_pretty(*self, level, max as nat, g));
                    s
                }
            },
            _ => {
                assert(forall|g: spec_fn(u64) -> Seq<char>| renders(*num, g) ==> s@ == spec_pretty(*self, level, max as nat, g));
                s
            },
        }
    }

    /// The text of the expression pretty-printed at depth `level`, with lines of at most
    /// `max` bytes where the expression can be split; `num` writes the finite numbers.
    pub fn pretty<F: Fn(u64) -> String>(&self, level: usize, max: usize, num: &F) -> (s: String)
        requires
            forall|b: u64| num.requires((b,)),
        ensures
            forall|g: spec_fn(u64) -> Seq<char>| renders(*num, g) ==> s@ == spec_pretty(
                *self,
                level as nat,
                max as nat,
                g,
            ),
    {
        proof {
            reveal_strlit("");
        }
        let mut ind = str_to_string("");
        let mut i: usize = 0;
        assert(ind@ =~= spec_indent(0));
        while i < level
            invariant
                i <= level,
                ind@ == spec_indent(i as nat),
            decreases level - i,
        {
            ind = deeper(&ind, Ghost(i as nat));
            i = i + 1;
        }
        self.pretty_in(&ind, max, num, Ghost(level as nat))
    }

    /// The expression pretty-printed from depth 0 with lines of at most
    /// `MAX_CHARACTERS_PER_LINE` bytes where it can be split.
    pub fn prettify<F: Fn(u64) -> String>(&self, num: &F) -> (s: String)
        requires
            forall|b: u64| num.requires((b,)),
        ensures
            forall|g: spec_fn(u64) -> Seq<char>| renders(*num, g) ==> s@ == spec_pretty(
                *self,
                0,
                MAX_CHARACTERS_PER_LINE as nat,
                g,
            ),
    {
        self.pretty(0, MAX_CHARACTERS_PER_LINE, num)
    }
}

/// The pretty texts of the arguments, separated by `",\n"`.
fn args_pretty<F: Fn(u64) -> String>(
    args: &Vec<Box<Expr>>,
    ind: &String,
    max: usize,
    num: &F,
    Ghost(level): Ghost<nat>,
) -> (s: String)
    requires
        forall|b: u64| num.requires((b,)),
        ind@ == spec_indent(level),
    ensures
        forall|g: spec_fn(u64) -> Seq<char>| renders(*num, g) ==> s@ == spec_args_pretty(
            args@,
            level,
            max as nat,
            g,
        ),
    decreases args,
{
    proof {
        reveal_strlit("");
    }
    let mut s = str_to_string("");
    let mut i: usize = 0;
    assert(args@.take(0) =~= Seq::<Box<Expr>>::empty());
    while i < args.len()
        invariant
            i <= args.len(),
            forall|b: u64| num.requires((b,)),
            ind@ == spec_indent(level),
            forall|g: spec_fn(u64) -> Seq<char>| renders(*num, g) ==> s@ == spec_args_pretty(
                args@.take(i as int),
                level,
                max as nat,
                g,
            ),
        decreases args.len() - i,
    {
        let ghost s0 = s@;
        if i > 0 {
            append_str(&mut s, ",\n");
        }
        proof {
            vstd::std_specs::vec::axiom_vec_index_decreases(*args, i as int);
        }
        let t = args[i].pretty_in(ind, max, num, Ghost(level));
        append_str(&mut s, t.as_str());
        let ghost t1 = args@.take(i + 1);
        assert(t1.drop_last() =~= args@.take(i as int));
        assert(t1.last() == args@[i as int]);
        assert forall|g: spec_fn(u64) -> Seq<char>| renders(*num, g) implies s@ == spec_args_pretty(
            t1,
            level,
            max as nat,
            g,
        ) by {
            assert(t@ == spec_pretty(*args@[i as int], level, max as nat, g));
            if i == 0 {
                assert(t1[0] == args@[0]);
                assert(s@ =~= t@);
            } else {
                assert(s0 == spec_args_pretty(args@.take(i as int), level, max as nat, g));
            }
        }
        i = i + 1;
    }
    assert(args@.take(args.len() as int) =~= args@);
    s
}


/// Whether the operands that pretty-printing keeps on the line of a negation or a
/// subquery have texts that do not start with whitespace.
pub open spec fn spec_operands_unpadded(e: Expr, num: spec_fn(u64) -> Seq<char>) -> bool
    decreases e,
{
    match e {
        Expr::Unary(u) => {
            let t = spec_expr_text(*u.expr, num);
            (t.len() == 0 || !spec_is_whitespace(t[0])) && spec_operands_unpadded(*u.expr, num)
        },
        Expr::Subquery(sq) => spec_operands_unpadded(*sq.expr, num),
        _ => true,
    }
}

proof fn lemma_byte_len_concat(a: Seq<char>, b: Seq<char>)
    ensures
        byte_len(a + b) == byte_len(a) + byte_len(b),
    decreases b.len(),
{
    if b.len() > 0 {
        lemma_byte_len_concat(a, b.drop_last());
        assert((a + b).drop_last() =~= a + b.drop_last());
        assert((a + b).last() == b.last());
    } else {
        assert(a + b =~= a);
    }
}

proof fn lemma_trim_start_indent(n: nat, t: Seq<char>)
    ensures
        spec_trim_start(spec_indent(n) + t) == spec_trim_start(t),
    decreases n,
{
    if n > 0 {
        let u = spec_indent(n) + t;
        assert(u[0] == ' ');
        assert(spec_is_whitespace(' '));
        let v = u.drop_first();
        assert(v[0] == ' ');
        assert(v.drop_first() =~= spec_indent((n - 1) as nat) + t);
        assert(spec_trim_start(u) == spec_trim_start(v));
        assert(spec_trim_start(v) == spec_trim_start(v.drop_first()));
        lemma_trim_start_indent((n - 1) as nat, t);
    } else {
        assert(spec_indent(0) + t =~= t);
    }
}

/// A node whose one-line text fits in `max` bytes is pretty-printed on one line, after
/// the indentation of its depth (where negated and subquery operands do not start with
/// whitespace).
pub proof fn lemma_pretty_fits(e: Expr, level: nat, max: nat, num: spec_fn(u64) -> Seq<char>)
    requires
        byte_len(spec_expr_text(e, num)) <= max,
        spec_operands_unpadded(e, num),
    ensures
        spec_pretty(e, level, max, num) == spec_indent(level) + spec_expr_text(e, num),
    decreases e,
{
    match e {
        Expr::Unary(u) => {
            let t = spec_expr_text(*u.expr, num);
            lemma_byte_len_concat("-"@, t);
            lemma_pretty_fits(*u.expr, level, max, num);
            lemma_trim_start_indent(level, t);
            assert(spec_trim_start(t) == t);
            assert(spec_indent(level) + "-"@ + t =~= spec_indent(level) + ("-"@ + t));
        },
        Expr::Subquery(sq) => {
            let t = spec_expr_text(*sq.expr, num);
            lemma_byte_len_concat(t, spec_subquery_suffix(sq));
            lemma_pretty_fits(*sq.expr, level, max, num);
            assert(spec_indent(level) + t + spec_subquery_suffix(sq) =~= spec_indent(level) + (t
                + spec_subquery_suffix(sq)));
        },
        _ => {},
    }
}

} // verus!
