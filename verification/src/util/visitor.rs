//! Depth-first walks over an expression with a visitor.
use vstd::prelude::*;

use crate::parser::ast::{AggregateExpr, BinaryExpr, Expr, ParenExpr, SubqueryExpr, UnaryExpr};

verus! {

/// A visitor for a depth-first walk over an expression: `pre_visit` is called on a node
/// before its children are visited and `post_visit` after them. Returning `Ok(false)` cuts
/// the walk short.
///
/// A visitor that keeps a log of its visits says so by `keeps_log`; its `visits` is then
/// the log: for each call, whether it was a `pre_visit`, the node, and the answer.
pub trait ExprVisitor {
    type Error;

    /// Whether `visits` is the log of the visits made to this visitor.
    open spec fn keeps_log() -> bool {
        false
    }

    /// The visits made so far, in order: `(true, node, answer)` for a `pre_visit`,
    /// `(false, node, answer)` for a `post_visit`.
    open spec fn visits(&self) -> Seq<(bool, Expr, Result<bool, Self::Error>)> {
        Seq::empty()
    }

    /// Called before the children of `plan` are visited.
    fn pre_visit(&mut self, plan: &Expr) -> (r: Result<bool, Self::Error>)
        ensures
            Self::keeps_log() ==> final(self).visits() == old(self).visits().push((true, *plan, r)),
    ;

    /// Called after the children of `plan` have been visited.
    fn post_visit(&mut self, plan: &Expr) -> (r: Result<bool, Self::Error>)
        ensures
            Self::keeps_log() ==> final(self).visits() == old(self).visits().push((false, *plan, r)),
    ;
}

/// The visits of a depth-first walk over `e`: `(true, e)`, the walks of its children
/// from left to right, then `(false, e)`.
pub open spec fn spec_walk_order(e: Expr) -> Seq<(bool, Expr)>
    decreases e, 2int,
{
    seq![(true, e)] + spec_children_walk_order(e) + seq![(false, e)]
}

/// The walks of the children of `e`, from left to right: the operand of an aggregation,
/// unary, parenthesised or subquery expression, the two operands of a binary one, the
/// arguments of a call; selectors and literals have none.
pub open spec fn spec_children_walk_order(e: Expr) -> Seq<(bool, Expr)>
    decreases e, 1int,
{
    match e {
        Expr::Aggregate(a) => spec_walk_order(*a.expr),
        Expr::Unary(u) => spec_walk_order(*u.expr),
        Expr::Binary(b) => spec_walk_order(*b.lhs) + spec_walk_order(*b.rhs),
        Expr::Paren(p) => spec_walk_order(*p.expr),
        Expr::Subquery(s) => spec_walk_order(*s.expr),
        Expr::Call(c) => spec_args_walk_order(c.args.args, c.args.args@.len() as int),
        _ => Seq::empty(),
    }
}

/// The walks over the first `n` arguments `args`, one after the other.
pub open spec fn spec_args_walk_order(args: Vec<Box<Expr>>, n: int) -> Seq<(bool, Expr)>
    decreases args, n,
{
    if n <= 0 || n > args@.len() {
        Seq::empty()
    } else {
        proof {
            vstd::std_specs::vec::axiom_vec_index_decreases(args, n - 1);
        }
        spec_args_walk_order(args, n - 1) + spec_walk_order(*args@[n - 1])
    }
}

/// Whether `log` is what a walk along `order` logs and `r` what it answers: the visits of
/// `order` up to the first answer other than `Ok(true)`, which is then the result, or all
/// of them, each answering `Ok(true)`, and the result `Ok(true)`.
pub open spec fn walk_run<E>(
    order: Seq<(bool, Expr)>,
    log: Seq<(bool, Expr, Result<bool, E>)>,
    r: Result<bool, E>,
) -> bool {
    &&& log.len() <= order.len()
    &&& forall|k: int| 0 <= k < log.len() ==> (#[trigger] log[k]).0 == order[k].0 && log[k].1 == order[k].1
    &&& forall|k: int| 0 <= k < log.len() - 1 ==> (#[trigger] log[k]).2 == Ok::<bool, E>(true)
    &&& if log.len() == 0 || log.last().2 == Ok::<bool, E>(true) {
        log.len() == order.len() && r == Ok::<bool, E>(true)
    } else {
        r == log.last().2
    }
}

/// Whether `o1` is a prefix of `o`.
pub open spec fn order_prefix(o1: Seq<(bool, Expr)>, o: Seq<(bool, Expr)>) -> bool {
    &&& o1.len() <= o.len()
    &&& forall|k: int| 0 <= k < o1.len() ==> o[k] == #[trigger] o1[k]
}

/// Whether the visits went from `before` to `after` by a walk along `order` answering `r`:
/// `after` is `before` followed by the log of that walk.
pub open spec fn walk_logged<E>(
    before: Seq<(bool, Expr, Result<bool, E>)>,
    after: Seq<(bool, Expr, Result<bool, E>)>,
    order: Seq<(bool, Expr)>,
    r: Result<bool, E>,
) -> bool {
    &&& before.len() <= after.len()
    &&& after.take(before.len() as int) == before
    &&& walk_run(order, after.skip(before.len() as int), r)
}

/// A run that stops early stops early along any order that begins with its own.
proof fn lemma_run_stops_prefix<E>(
    o1: Seq<(bool, Expr)>,
    o: Seq<(bool, Expr)>,
    log: Seq<(bool, Expr, Result<bool, E>)>,
    r: Result<bool, E>,
)
    requires
        walk_run(o1, log, r),
        r != Ok::<bool, E>(true),
        order_prefix(o1, o),
    ensures
        walk_run(o, log, r),
{
    assert forall|k: int| 0 <= k < log.len() implies (#[trigger] log[k]).0 == o[k].0 && log[k].1
        == o[k].1 by {
        assert(o[k] == o1[k]);
    }
}

/// A full run along `o1` followed by a run along `o2` is a run along `o1 + o2`.
proof fn lemma_run_concat<E>(
    o1: Seq<(bool, Expr)>,
    l1: Seq<(bool, Expr, Result<bool, E>)>,
    o2: Seq<(bool, Expr)>,
    l2: Seq<(bool, Expr, Result<bool, E>)>,
    r: Result<bool, E>,
)
    requires
        walk_run(o1, l1, Ok::<bool, E>(true)),
        walk_run(o2, l2, r),
    ensures
        walk_run(o1 + o2, l1 + l2, r),
{
    let l = l1 + l2;
    let o = o1 + o2;
    assert forall|k: int| 0 <= k < l.len() implies (#[trigger] l[k]).0 == o[k].0 && l[k].1
        == o[k].1 by {
        if k < l1.len() {
            assert(l[k] == l1[k] && o[k] == o1[k]);
        } else {
            assert(l[k] == l2[k - l1.len()] && o[k] == o2[k - o1.len()]);
        }
    }
    assert forall|k: int| 0 <= k < l.len() - 1 implies (#[trigger] l[k]).2 == Ok::<bool, E>(true) by {
        if k < l1.len() {
            assert(l[k] == l1[k]);
            if k == l1.len() - 1 {
                assert(l1.last() == l1[k]);
            }
        } else {
            assert(l[k] == l2[k - l1.len()]);
        }
    }
    if l2.len() > 0 {
        assert(l.last() == l2.last());
    } else {
        assert(l =~= l1);
        assert(o =~= o1);
    }
}

/// A single visit answering `a` is a run along its one-entry order, answering `a`.
proof fn lemma_run_one<E>(b: bool, n: Expr, a: Result<bool, E>)
    ensures
        walk_run(seq![(b, n)], seq![(b, n, a)], a),
{
    assert(seq![(b, n, a)].last() == (b, n, a));
}

proof fn lemma_logged_stops<E>(
    a: Seq<(bool, Expr, Result<bool, E>)>,
    b: Seq<(bool, Expr, Result<bool, E>)>,
    o1: Seq<(bool, Expr)>,
    o: Seq<(bool, Expr)>,
    r: Result<bool, E>,
)
    requires
        walk_logged(a, b, o1, r),
        r != Ok::<bool, E>(true),
        order_prefix(o1, o),
    ensures
        walk_logged(a, b, o, r),
{
    lemma_run_stops_prefix(o1, o, b.skip(a.len() as int), r);
}

proof fn lemma_logged_concat<E>(
    a: Seq<(bool, Expr, Result<bool, E>)>,
    b: Seq<(bool, Expr, Result<bool, E>)>,
    c: Seq<(bool, Expr, Result<bool, E>)>,
    o1: Seq<(bool, Expr)>,
    o2: Seq<(bool, Expr)>,
    r: Result<bool, E>,
)
    requires
        walk_logged(a, b, o1, Ok::<bool, E>(true)),
        walk_logged(b, c, o2, r),
    ensures
        walk_logged(a, c, o1 + o2, r),
{
    let l1 = b.skip(a.len() as int);
    let l2 = c.skip(b.len() as int);
    assert(c.skip(a.len() as int) =~= l1 + l2) by {
        assert forall|k: int| 0 <= k < c.len() - a.len() implies c.skip(a.len() as int)[k] == (l1
            + l2)[k] by {
            if k < l1.len() {
                assert(c[a.len() + k] == c.take(b.len() as int)[a.len() + k]);
            }
        }
    }
    assert(c.take(a.len() as int) =~= a) by {
        assert forall|k: int| 0 <= k < a.len() implies c.take(a.len() as int)[k] == a[k] by {
            assert(c[k] == c.take(b.len() as int)[k]);
            assert(b[k] == b.take(a.len() as int)[k]);
        }
    }
    lemma_run_concat(o1, l1, o2, l2, r);
}

proof fn lemma_logged_one<E>(a: Seq<(bool, Expr, Result<bool, E>)>, v: bool, n: Expr, x: Result<bool, E>)
    ensures
        walk_logged(a, a.push((v, n, x)), seq![(v, n)], x),
{
    lemma_run_one(v, n, x);
    assert(a.push((v, n, x)).skip(a.len() as int) =~= seq![(v, n, x)]);
    assert(a.push((v, n, x)).take(a.len() as int) =~= a);
}

proof fn lemma_logged_none<E>(a: Seq<(bool, Expr, Result<bool, E>)>)
    ensures
        walk_logged(a, a, Seq::empty(), Ok::<bool, E>(true)),
{
    assert(a.skip(a.len() as int) =~= Seq::<(bool, Expr, Result<bool, E>)>::empty());
    assert(a.take(a.len() as int) =~= a);
}

/// The walks over the first `m` arguments begin the walks over the first `n`.
proof fn lemma_args_order_prefix(args: Vec<Box<Expr>>, m: int, n: int)
    requires
        0 <= m <= n <= args@.len(),
    ensures
        order_prefix(spec_args_walk_order(args, m), spec_args_walk_order(args, n)),
    decreases n - m,
{
    if m < n {
        lemma_args_order_prefix(args, m, n - 1);
        let o1 = spec_args_walk_order(args, m);
        let o2 = spec_args_walk_order(args, n - 1);
        let o = spec_args_walk_order(args, n);
        assert(o == o2 + spec_walk_order(*args@[n - 1]));
        assert forall|k: int| 0 <= k < o1.len() implies o[k] == #[trigger] o1[k] by {
            assert(o[k] == o2[k]);
        }
    }
}

/// Every argument of a call is pre-visited in the walks over its arguments: the `k`-th,
/// for `k < n`, in the walks over the first `n`.
proof fn lemma_args_walk_visits(args: Vec<Box<Expr>>, n: int, k: int)
    requires
        0 <= k < n <= args@.len(),
    ensures
        spec_args_walk_order(args, n).contains((true, *args@[k])),
    decreases n,
{
    let o = spec_args_walk_order(args, n - 1);
    let w = spec_walk_order(*args@[n - 1]);
    assert(spec_args_walk_order(args, n) == o + w);
    if k < n - 1 {
        lemma_args_walk_visits(args, n - 1, k);
        let i = choose|i: int| 0 <= i < o.len() && o[i] == (true, *args@[k]);
        assert((o + w)[i] == o[i]);
    } else {
        assert(w[0] == (true, *args@[n - 1]));
        assert((o + w)[o.len() as int] == w[0]);
    }
}

/// In the walks over the first `n` arguments, an earlier argument is pre-visited before a
/// later one.
proof fn lemma_args_walk_in_order(args: Vec<Box<Expr>>, n: int, k: int, m: int)
    requires
        0 <= k < m < n <= args@.len(),
    ensures
        exists|i: int, j: int|
            #![trigger spec_args_walk_order(args, n)[i], spec_args_walk_order(args, n)[j]]
            0 <= i < j < spec_args_walk_order(args, n).len() && spec_args_walk_order(args, n)[i] == (
            true,
            *args@[k],
        ) && spec_args_walk_order(args, n)[j] == (true, *args@[m]),
    decreases n,
{
    let o = spec_args_walk_order(args, n - 1);
    let w = spec_walk_order(*args@[n - 1]);
    let on = spec_args_walk_order(args, n);
    assert(on == o + w);
    if m < n - 1 {
        lemma_args_walk_in_order(args, n - 1, k, m);
        let (i, j) = choose|i: int, j: int|
            #![trigger o[i], o[j]]
            0 <= i < j < o.len() && o[i] == (true, *args@[k]) && o[j] == (true, *args@[m]);
        assert(on[i] == o[i] && on[j] == o[j]);
    } else {
        lemma_args_walk_visits(args, n - 1, k);
        let i = choose|i: int| 0 <= i < o.len() && o[i] == (true, *args@[k]);
        assert(w[0] == (true, *args@[n - 1]));
        assert(on[i] == o[i]);
        assert(on[o.len() as int] == w[0]);
    }
}

/// A depth-first walk over `e` begins with the pre-visit of `e`, ends with its post-visit,
/// and pre-visits every operand of `e` in between: the operand of an aggregation, unary,
/// parenthesised or subquery expression; both operands of a binary expression, the left
/// one first; every argument of a call, in order. A selector or a literal is visited alone.
pub proof fn lemma_walk_visits_operands(e: Expr)
    ensures
        spec_walk_order(e).len() >= 2,
        spec_walk_order(e)[0] == (true, e),
        spec_walk_order(e).last() == (false, e),
        match e {
            Expr::Aggregate(a) => spec_walk_order(e).contains((true, *a.expr)),
            Expr::Unary(u) => spec_walk_order(e).contains((true, *u.expr)),
            Expr::Paren(p) => spec_walk_order(e).contains((true, *p.expr)),
            Expr::Subquery(s) => spec_walk_order(e).contains((true, *s.expr)),
            Expr::Binary(b) => exists|i: int, j: int|
                #![trigger spec_walk_order(e)[i], spec_walk_order(e)[j]]
                0 < i < j < spec_walk_order(e).len() - 1 && spec_walk_order(e)[i] == (true, *b.lhs)
                    && spec_walk_order(e)[j] == (true, *b.rhs),
            Expr::Call(c) => (forall|k: int|
                0 <= k < c.args.args@.len() ==> spec_walk_order(e).contains(
                    (true, *#[trigger] c.args.args@[k]),
                )) && (forall|k: int, m: int|
                0 <= k < m < c.args.args@.len() ==> exists|i: int, j: int|
                    #![trigger spec_walk_order(e)[i], spec_walk_order(e)[j]]
                    0 <= i < j < spec_walk_order(e).len() && spec_walk_order(e)[i] == (
                    true,
                    *#[trigger] c.args.args@[k],
                ) && spec_walk_order(e)[j] == (true, *#[trigger] c.args.args@[m])),
            _ => spec_walk_order(e).len() == 2,
        },
{
    let head = seq![(true, e)];
    let kids = spec_children_walk_order(e);
    let o = spec_walk_order(e);
    assert(o == head + kids + seq![(false, e)]);
    assert(o[0] == (true, e));
    assert(o.last() == (false, e));
    // the first visit of a walk over an operand `x` lies at 1 in the walk over `e`
    match e {
        Expr::Aggregate(a) => {
            assert(o[1] == spec_walk_order(*a.expr)[0]);
        },
        Expr::Unary(u) => {
            assert(o[1] == spec_walk_order(*u.expr)[0]);
        },
        Expr::Paren(p) => {
            assert(o[1] == spec_walk_order(*p.expr)[0]);
        },
        Expr::Subquery(s) => {
            assert(o[1] == spec_walk_order(*s.expr)[0]);
        },
        Expr::Binary(b) => {
            let l = spec_walk_order(*b.lhs);
            let r = spec_walk_order(*b.rhs);
            assert(l == seq![(true, *b.lhs)] + spec_children_walk_order(*b.lhs) + seq![
                (false, *b.lhs),
            ]);
            assert(r == seq![(true, *b.rhs)] + spec_children_walk_order(*b.rhs) + seq![
                (false, *b.rhs),
            ]);
            assert(kids == l + r);
            assert(o[1] == l[0]);
            assert(o[1 + l.len() as int] == r[0]);
        },
        Expr::Call(c) => {
            let args = c.args.args;
            assert forall|k: int| 0 <= k < args@.len() implies o.contains(
                (true, *#[trigger] args@[k]),
            ) by {
                lemma_args_walk_visits(args, args@.len() as int, k);
                let i = choose|i: int| 0 <= i < kids.len() && kids[i] == (true, *args@[k]);
                assert(o[1 + i] == kids[i]);
            }
            assert forall|k: int, m: int| 0 <= k < m < args@.len() implies exists|i: int, j: int|
                #![trigger o[i], o[j]]
                0 <= i < j < o.len() && o[i] == (true, *#[trigger] args@[k]) && o[j] == (
                true,
                *#[trigger] args@[m],
            ) by {
                lemma_args_walk_in_order(args, args@.len() as int, k, m);
                let (i, j) = choose|i: int, j: int|
                    #![trigger kids[i], kids[j]]
                    0 <= i < j < kids.len() && kids[i] == (true, *args@[k]) && kids[j] == (true, *args@[m]);
                assert(o[1 + i] == kids[i] && o[1 + j] == kids[j]);
            }
        },
        _ => {},
    }
}

/// A walk that answers `Ok(true)` made every visit of its order, in order, and each of
/// them answered `Ok(true)`.
pub proof fn lemma_full_walk<E>(order: Seq<(bool, Expr)>, log: Seq<(bool, Expr, Result<bool, E>)>)
    requires
        walk_run(order, log, Ok::<bool, E>(true)),
    ensures
        log.len() == order.len(),
        forall|k: int|
            0 <= k < log.len() ==> #[trigger] log[k] == (order[k].0, order[k].1, Ok::<bool, E>(true)),
{
    if log.len() > 0 {
        assert(log.last() == log[log.len() - 1]);
    }
}

/// A visitor for a depth-first walk that may change the nodes it visits.
pub trait ExprVisitorMut {
    type Error;

    /// Called before the children of `plan` are visited.
    fn pre_visit(&mut self, plan: &mut Expr) -> Result<bool, Self::Error>;

    /// Called after the children of `plan` have been visited. Unless overridden, it
    /// answers `Ok(true)` and leaves the node as it was.
    fn post_visit(&mut self, plan: &mut Expr) -> (r: Result<bool, Self::Error>)
        default_ensures
            r == Ok::<bool, Self::Error>(true),
            *final(plan) == *old(plan),
    {
        Ok(true)
    }
}

/// Walks `expr` depth first: `pre_visit` on the node, then the walks of its children from
/// left to right (see `spec_walk_order`), then `post_visit`. The walk stops at the first
/// answer other than `Ok(true)` and returns it; it returns `Ok(true)` when every visit
/// answered `Ok(true)`. The visitor's log grows by exactly the visits made.
pub fn walk_expr<V: ExprVisitor>(visitor: &mut V, expr: &Expr) -> (r: Result<bool, V::Error>)
    ensures
        V::keeps_log() ==> walk_logged(
            old(visitor).visits(),
            final(visitor).visits(),
            spec_walk_order(*expr),
            r,
        ),
    decreases expr,
{
    let ghost v0 = visitor.visits();
    let ghost order = spec_walk_order(*expr);
    let ghost kids = spec_children_walk_order(*expr);
    let ghost head = seq![(true, *expr)];
    let pre = visitor.pre_visit(expr);
    let ghost pre_g = pre;
    let ghost v1 = visitor.visits();
    proof {
        if V::keeps_log() {
            lemma_logged_one(v0, true, *expr, pre_g);
            assert(order == head + kids + seq![(false, *expr)]);
            assert forall|k: int| 0 <= k < head.len() implies order[k] == #[trigger] head[k] by {}
            assert forall|k: int| 0 <= k < (head + kids).len() implies order[k] == #[trigger] (head
                + kids)[k] by {}
        }
    }
    match pre {
        Ok(true) => {},
        Ok(false) => {
            proof {
                if V::keeps_log() {
                    lemma_logged_stops(v0, v1, head, order, pre_g);
                }
            }
            return Ok(false);
        },
        Err(e) => {
            proof {
                if V::keeps_log() {
                    lemma_logged_stops(v0, v1, head, order, pre_g);
                }
            }
            return Err(e);
        },
    }
    let recurse = match expr {
        Expr::Aggregate(AggregateExpr { expr, .. }) => walk_expr(visitor, expr),
        Expr::Unary(UnaryExpr { expr }) => walk_expr(visitor, expr),
        Expr::Binary(BinaryExpr { lhs, rhs, .. }) => {
            let left = walk_expr(visitor, lhs);
            let ghost vl = visitor.visits();
            let ghost ol = spec_walk_order(**lhs);
            let ghost or = spec_walk_order(**rhs);
            proof {
                if V::keeps_log() {
                    assert forall|k: int| 0 <= k < ol.len() implies (ol + or)[k] == #[trigger] ol[k] by {}
                }
            }
            match left {
                Ok(true) => {
                    let right = walk_expr(visitor, rhs);
                    proof {
                        if V::keeps_log() {
                            lemma_logged_concat(v1, vl, visitor.visits(), ol, or, right);
                        }
                    }
                    right
                },
                other => {
                    proof {
                        if V::keeps_log() {
                            lemma_logged_stops(v1, vl, ol, ol + or, other);
                        }
                    }
                    other
                },
            }
        },
        Expr::Paren(ParenExpr { expr }) => walk_expr(visitor, expr),
        Expr::Subquery(SubqueryExpr { expr, .. }) => walk_expr(visitor, expr),
        Expr::Call(call) => {
            let args = &call.args.args;
            let ghost full = spec_args_walk_order(*args, args@.len() as int);
            let mut i: usize = 0;
            let mut res: Result<bool, V::Error> = Ok(true);
            proof {
                if V::keeps_log() {
                    lemma_logged_none(v1);
                }
            }
            while i < args.len()
                invariant_except_break
                    res == Ok::<bool, V::Error>(true),
                    V::keeps_log() ==> walk_logged(
                        v1,
                        visitor.visits(),
                        spec_args_walk_order(*args, i as int),
                        res,
                    ),
                invariant
                    *expr == Expr::Call(*call),
                    args == &call.args.args,
                    i <= args.len(),
                    full == spec_args_walk_order(*args, args@.len() as int),
                ensures
                    V::keeps_log() ==> walk_logged(v1, visitor.visits(), full, res),
                decreases args.len() - i,
            {
                proof {
                    vstd::std_specs::vec::axiom_vec_index_decreases(*args, i as int);
                    assert(decreases_to!(*expr => (*expr)->Call_0));
                    assert(decreases_to!((*expr)->Call_0 => (*expr)->Call_0.args));
                    assert(decreases_to!((*expr)->Call_0.args => (*expr)->Call_0.args.args));
                    assert(decreases_to!(*expr => args[i as int]));
                }
                let ghost va = visitor.visits();
                let ghost oa = spec_args_walk_order(*args, i as int);
                let ghost ob = spec_walk_order(*args@[i as int]);
                let one = walk_expr(visitor, &args[i]);
                proof {
                    if V::keeps_log() {
                        assert(spec_args_walk_order(*args, i + 1) == oa + ob);
                        lemma_logged_concat(v1, va, visitor.visits(), oa, ob, one);
                    }
                }
                match one {
                    Ok(true) => {},
                    other => {
                        proof {
                            if V::keeps_log() {
                                lemma_args_order_prefix(*args, i + 1, args@.len() as int);
                                lemma_logged_stops(v1, visitor.visits(), oa + ob, full, other);
                            }
                        }
                        res = other;
                        break;
                    },
                }
                i = i + 1;
            }
            res
        },
        Expr::NumberLiteral(_) | Expr::StringLiteral(_) | Expr::VectorSelector(_)
        | Expr::MatrixSelector(_) => {
            proof {
                if V::keeps_log() {
                    lemma_logged_none(v1);
                }
            }
            Ok(true)
        },
    };
    let ghost v2 = visitor.visits();
    let ghost rec_g = recurse;
    proof {
        if V::keeps_log() {
            assert(walk_logged(v1, v2, kids, rec_g));
            lemma_logged_concat(v0, v1, v2, head, kids, rec_g);
        }
    }
    match recurse {
        Ok(true) => {},
        other => {
            proof {
                if V::keeps_log() {
                    lemma_logged_stops(v0, v2, head + kids, order, rec_g);
                }
            }
            return other;
        },
    }
    let post = visitor.post_visit(expr);
    proof {
        if V::keeps_log() {
            lemma_logged_one(v2, false, *expr, post);
            lemma_logged_concat(v0, v2, visitor.visits(), head + kids, seq![(false, *expr)], post);
        }
    }
    post
}

} // verus!
