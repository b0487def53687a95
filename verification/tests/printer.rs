use promql_parser::label::matcher::{MatchOp, Matcher, Matchers, Pattern};
use promql_parser::label::{Labels, METRIC_NAME};
use promql_parser::parser::ast::{
    AtModifier, BinModifier, Expr, LabelModifier, Offset, VectorMatchCardinality,
    VectorSelector,
};
use promql_parser::parser::function::{get_function, FunctionArgs};
use promql_parser::parser::token;
use promql_parser::util::duration::Duration;

fn render(b: u64) -> String {
    format!("{}", f64::from_bits(b))
}

fn text(e: &Expr) -> String {
    e.to_text(&render)
}

fn num(v: f64) -> Expr {
    Expr::from_number(v.to_bits())
}

fn vs(name: &str) -> Expr {
    Expr::from(VectorSelector::from(name))
}

fn sel(name: Option<&str>, matchers: Vec<Matcher>) -> Expr {
    Expr::new_vector_selector(name.map(String::from), Matchers::new(matchers)).unwrap()
}

fn eq(name: &str, value: &str) -> Matcher {
    Matcher::new(MatchOp::Equal, name, value)
}

fn bin(lhs: Expr, op: u8, modifier: Option<BinModifier>, rhs: Expr) -> Expr {
    Expr::new_binary_expr(lhs, op, modifier, rhs).unwrap()
}

fn call(name: &str, args: Vec<Expr>) -> Expr {
    let mut fa = FunctionArgs::empty_args();
    for a in args {
        fa = fa.append_args(a);
    }
    Expr::new_call(get_function(name).unwrap(), fa).unwrap()
}

fn aggr(op: u8, modifier: Option<LabelModifier>, args: Vec<Expr>) -> Expr {
    let mut fa = FunctionArgs::empty_args();
    for a in args {
        fa = fa.append_args(a);
    }
    Expr::new_aggregate_expr(op, modifier, fa).unwrap()
}

fn matrix(e: Expr, secs: u64) -> Expr {
    Expr::new_matrix_selector(e, Duration::from_secs(secs)).unwrap()
}

#[test]
fn test_vector_selector_to_string() {
    let cases = vec![
        (VectorSelector::default(), ""),
        (VectorSelector::from("foobar"), "foobar"),
        (
            {
                let name = Some(String::from("foobar"));
                let matchers = Matchers::one(Matcher::new(MatchOp::Equal, "a", "x"));
                VectorSelector::new(name, matchers)
            },
            r#"foobar{a="x"}"#,
        ),
        (
            {
                let matchers = Matchers::new(vec![
                    Matcher::new(MatchOp::Equal, "a", "x"),
                    Matcher::new(MatchOp::Equal, "b", "y"),
                ]);
                VectorSelector::new(None, matchers)
            },
            r#"{a="x",b="y"}"#,
        ),
        (
            {
                let matchers = Matchers::one(Matcher::new(MatchOp::Equal, METRIC_NAME, "foobar"));
                VectorSelector::new(None, matchers)
            },
            r#"{__name__="foobar"}"#,
        ),
    ];

    for (vs, expect) in cases {
        assert_eq!(expect, vs.to_string())
    }
}

#[test]
fn test_number_texts() {
    assert_eq!(text(&num(1.0)), "1");
    assert_eq!(text(&-num(1.0)), "-1");
    assert_eq!(text(&num(f64::INFINITY)), "Inf");
    assert_eq!(text(&num(f64::NEG_INFINITY)), "-Inf");
    assert_eq!(text(&num(f64::NAN)), "NaN");
    assert_eq!(text(&num(0.5)), "0.5");
    assert_eq!(text(&num(0.005)), "0.005");
    assert_eq!(text(&num(493.0)), "493");
    assert_eq!(text(&Expr::from_str("a b")), "\"a b\"");
}

#[test]
fn test_expr_to_string() {
    // - 1^2
    let e = Expr::new_unary_expr(bin(num(1.0), token::T_POW, None, num(2.0))).unwrap();
    assert_eq!(text(&e), "-1 ^ 2");
    // 1 + 2/(3*1)
    let e = bin(
        num(1.0),
        token::T_ADD,
        None,
        bin(
            num(2.0),
            token::T_DIV,
            None,
            Expr::new_paren_expr(bin(num(3.0), token::T_MUL, None, num(1.0))).unwrap(),
        ),
    );
    assert_eq!(text(&e), "1 + 2 / (3 * 1)");
    // foo * on(test,blub) bar
    let m = BinModifier::default().with_matching(Some(LabelModifier::include_labels(vec!["test", "blub"])));
    assert_eq!(text(&bin(vs("foo"), token::T_MUL, Some(m), vs("bar"))), "foo * on (test, blub) bar");
    // up{job="hi", instance="in"} offset 5m @ 100
    let e = sel(Some("up"), vec![eq("job", "hi"), eq("instance", "in")])
        .offset_expr(Offset::Pos(Duration::from_secs(300)))
        .unwrap()
        .at_expr(AtModifier::At(100_000))
        .unwrap();
    assert_eq!(text(&e), r#"up{instance="in",job="hi"} @ 100.000 offset 5m"#);
    // sum (up) by (job,instance)
    let e = aggr(
        token::T_SUM,
        Some(LabelModifier::include_labels(vec!["job", "instance"])),
        vec![vs("up")],
    );
    assert_eq!(text(&e), "sum by (job, instance) (up)");
    // foo / on(test,blub) group_left(bar) bar
    let m = BinModifier::default()
        .with_matching(Some(LabelModifier::include_labels(vec!["test", "blub"])))
        .with_card(VectorMatchCardinality::many_to_one(vec!["bar"]));
    assert_eq!(
        text(&bin(vs("foo"), token::T_DIV, Some(m), vs("bar"))),
        "foo / on (test, blub) group_left (bar) bar"
    );
    let m = BinModifier::default()
        .with_matching(Some(LabelModifier::include_labels(vec!["test", "blub"])))
        .with_card(VectorMatchCardinality::one_to_many(vec!["bar"]));
    assert_eq!(
        text(&bin(vs("foo"), token::T_DIV, Some(m), vs("bar"))),
        "foo / on (test, blub) group_right (bar) bar"
    );
    // foo{a="b",foo!="bar",test=~"test",bar!~"baz"}
    let e = sel(
        Some("foo"),
        vec![
            eq("a", "b"),
            Matcher::new(MatchOp::NotEqual, "foo", "bar"),
            Matcher::new(MatchOp::Re(Pattern::new("test").unwrap()), "test", "test"),
            Matcher::new(MatchOp::NotRe(Pattern::new("baz").unwrap()), "bar", "baz"),
        ],
    );
    assert_eq!(text(&e), r#"foo{a="b",bar!~"baz",foo!="bar",test=~"test"}"#);
    // test{a="b"}[5y] OFFSET 3d
    let e = matrix(sel(Some("test"), vec![eq("a", "b")]), 5 * 365 * 86400)
        .offset_expr(Offset::Pos(Duration::from_secs(3 * 86400)))
        .unwrap();
    assert_eq!(text(&e), r#"test{a="b"}[5y] offset 3d"#);
    let e = matrix(sel(None, vec![eq("a", "b")]), 5 * 365 * 86400)
        .offset_expr(Offset::Pos(Duration::from_secs(3 * 86400)))
        .unwrap();
    assert_eq!(text(&e), r#"{a="b"}[5y] offset 3d"#);
    // sum(some_metric) without(and, by, avg, count, alert, annotations)
    let e = aggr(
        token::T_SUM,
        Some(LabelModifier::exclude(vec!["and", "by", "avg", "count", "alert", "annotations"])),
        vec![vs("some_metric")],
    );
    assert_eq!(text(&e), "sum without (and, by, avg, count, alert, annotations) (some_metric)");
    // round(some_metric,5)
    assert_eq!(text(&call("round", vec![vs("some_metric"), num(5.0)])), "round(some_metric, 5)");
    // histogram_quantile(0.9,sum(rate(http_request_duration_seconds_bucket[10m])) by(job,le))
    let inner = aggr(
        token::T_SUM,
        Some(LabelModifier::include_labels(vec!["job", "le"])),
        vec![call("rate", vec![matrix(vs("http_request_duration_seconds_bucket"), 600)])],
    );
    assert_eq!(
        text(&call("histogram_quantile", vec![num(0.9), inner])),
        "histogram_quantile(0.9, sum by (job, le) (rate(http_request_duration_seconds_bucket[10m])))"
    );
    // label_join(...)
    let e = call(
        "label_join",
        vec![
            sel(Some("up"), vec![eq("job", "api-server"), eq("src1", "a")]),
            Expr::from_str("foo"),
            Expr::from_str(","),
            Expr::from_str("src1"),
        ],
    );
    assert_eq!(
        text(&e),
        r#"label_join(up{job="api-server",src1="a"}, "foo", ",", "src1")"#
    );
    // min_over_time(rate(foo{bar="baz"}[2s])[5m:])[4m:3s] @ 100
    let rate = call("rate", vec![matrix(sel(Some("foo"), vec![eq("bar", "baz")]), 2)]);
    let sq = Expr::new_subquery_expr(rate, Duration::from_secs(300), None).unwrap();
    let e = Expr::new_subquery_expr(
        call("min_over_time", vec![sq]),
        Duration::from_secs(240),
        Some(Duration::from_secs(3)),
    )
    .unwrap()
    .at_expr(AtModifier::At(100_000))
    .unwrap();
    assert_eq!(
        text(&e),
        r#"min_over_time(rate(foo{bar="baz"}[2s])[5m:])[4m:3s] @ 100.000"#
    );
    // some_metric OFFSET 1m [10m:5s]
    let e = Expr::new_subquery_expr(
        vs("some_metric").offset_expr(Offset::Pos(Duration::from_secs(60))).unwrap(),
        Duration::from_secs(600),
        Some(Duration::from_secs(5)),
    )
    .unwrap();
    assert_eq!(text(&e), "some_metric offset 1m[10m:5s]");
}

#[test]
fn test_expr_to_string_modifiers() {
    // sum by() (...) prints no grouping, sum without() keeps it
    let e = aggr(
        token::T_SUM,
        Some(LabelModifier::include_labels(vec![])),
        vec![sel(Some("task:errors:rate10s"), vec![eq("job", "s")])],
    );
    assert_eq!(text(&e), r#"sum(task:errors:rate10s{job="s"})"#);
    let e = aggr(
        token::T_SUM,
        Some(LabelModifier::exclude(vec![])),
        vec![sel(Some("task:errors:rate10s"), vec![eq("job", "s")])],
    );
    assert_eq!(text(&e), r#"sum without () (task:errors:rate10s{job="s"})"#);
    let e = aggr(
        token::T_TOPK,
        None,
        vec![num(5.0), sel(Some("task:errors:rate10s"), vec![eq("job", "s")])],
    );
    assert_eq!(text(&e), r#"topk(5, task:errors:rate10s{job="s"})"#);
    let on_empty = BinModifier::default().with_matching(Some(LabelModifier::include_labels(vec![])));
    assert_eq!(text(&bin(vs("a"), token::T_SUB, Some(on_empty), vs("c"))), "a - on () c");
    let group = BinModifier::default()
        .with_matching(Some(LabelModifier::include_labels(vec!["b"])))
        .with_card(VectorMatchCardinality::ManyToOne(Labels::new(vec![])));
    assert_eq!(
        text(&bin(vs("a"), token::T_SUB, Some(group), vs("c"))),
        "a - on (b) group_left () c"
    );
    let ignoring_empty = BinModifier::default().with_matching(Some(LabelModifier::exclude(vec![])));
    assert_eq!(text(&bin(vs("a"), token::T_SUB, Some(ignoring_empty), vs("c"))), "a - c");
    let ignoring = BinModifier::default().with_matching(Some(LabelModifier::exclude(vec!["b"])));
    assert_eq!(
        text(&bin(vs("a"), token::T_SUB, Some(ignoring), vs("c"))),
        "a - ignoring (b) c"
    );
    let b = BinModifier::default().with_return_bool(true);
    assert_eq!(text(&bin(vs("up"), token::T_GTR, Some(b), num(0.0))), "up > bool 0");
    let e = vs("a").offset_expr(Offset::Neg(Duration::from_secs(420))).unwrap();
    assert_eq!(text(&e), "a offset -7m");
    let e = matrix(vs("a"), 720).offset_expr(Offset::Neg(Duration::from_secs(180))).unwrap();
    assert_eq!(text(&e), "a[12m] offset -3m");
    let e = Expr::new_subquery_expr(vs("a"), Duration::from_secs(3600), Some(Duration::from_secs(300)))
        .unwrap()
        .offset_expr(Offset::Pos(Duration::from_secs(60)))
        .unwrap();
    assert_eq!(text(&e), "a[1h:5m] offset 1m");
    assert_eq!(text(&vs("a").at_expr(AtModifier::Start).unwrap()), "a @ start()");
    assert_eq!(text(&matrix(vs("a"), 60).at_expr(AtModifier::End).unwrap()), "a[1m] @ end()");
    assert_eq!(text(&vs("a").at_expr(AtModifier::At(10_000)).unwrap()), "a @ 10.000");
}

#[test]
fn test_aggregate_expr_pretty() {
    let job_s = || sel(Some("task:errors:rate10s"), vec![eq("job", "s")]);
    let by = || Some(LabelModifier::include_labels(vec!["job", "foo"]));
    assert_eq!(aggr(token::T_SUM, None, vec![vs("foo")]).pretty(0, 10, &render), "sum(foo)");
    assert_eq!(
        aggr(token::T_SUM, Some(LabelModifier::include_labels(vec![])), vec![job_s()]).pretty(0, 10, &render),
        "sum(\n  task:errors:rate10s{job=\"s\"}\n)"
    );
    assert_eq!(
        aggr(token::T_SUM, Some(LabelModifier::exclude(vec!["job", "foo"])), vec![job_s()]).pretty(0, 10, &render),
        "sum without (job, foo) (\n  task:errors:rate10s{job=\"s\"}\n)"
    );
    assert_eq!(
        aggr(token::T_TOPK, None, vec![num(10.0), sel(Some("ask:errors:rate10s"), vec![eq("job", "s")])])
            .pretty(0, 10, &render),
        "topk(\n  10,\n  ask:errors:rate10s{job=\"s\"}\n)"
    );
    let nested = aggr(token::T_SUM, by(), vec![aggr(token::T_SUM, by(), vec![job_s()])]);
    assert_eq!(
        nested.pretty(0, 10, &render),
        "sum by (job, foo) (\n  sum by (job, foo) (\n    task:errors:rate10s{job=\"s\"}\n  )\n)"
    );
}

#[test]
fn test_binary_expr_pretty() {
    assert_eq!(bin(vs("a"), token::T_ADD, None, vs("b")).pretty(0, 10, &render), "a + b");
    let b = BinModifier::default().with_return_bool(true);
    assert_eq!(
        bin(vs("a"), token::T_EQLC, Some(b), num(1.0)).pretty(0, 10, &render),
        "  a\n== bool\n  1"
    );
    assert_eq!(
        bin(vs("a"), token::T_EQLC, None, num(1024000.0)).pretty(0, 10, &render),
        "  a\n==\n  1024000"
    );
    let ign = BinModifier::default().with_matching(Some(LabelModifier::exclude(vec!["job"])));
    assert_eq!(
        bin(vs("a"), token::T_ADD, Some(ign), vs("b")).pretty(0, 10, &render),
        "  a\n+ ignoring (job)\n  b"
    );
    let three = bin(
        bin(vs("foo_1"), token::T_ADD, None, vs("foo_2")),
        token::T_ADD,
        None,
        vs("foo_3"),
    );
    assert_eq!(three.pretty(0, 10, &render), "    foo_1\n  +\n    foo_2\n+\n  foo_3");
    let short = bin(bin(vs("foo"), token::T_ADD, None, vs("baar")), token::T_ADD, None, vs("foo_3"));
    assert_eq!(short.pretty(0, 10, &render), "  foo + baar\n+\n  foo_3");
}

#[test]
fn test_call_paren_unary_pretty() {
    let rate = call("rate", vec![matrix(vs("foo"), 60)]);
    assert_eq!(rate.pretty(0, 10, &render), "rate(\n  foo[1m]\n)");
    let paren = Expr::new_paren_expr(bin(vs("foo"), token::T_ADD, None, vs("bar"))).unwrap();
    assert_eq!(paren.pretty(0, 10, &render), "(\n  foo + bar\n)");
    let neg = Expr::new_unary_expr(paren).unwrap();
    assert_eq!(neg.pretty(0, 10, &render), "-(\n  foo + bar\n)");
    let short = Expr::new_unary_expr(vs("foo")).unwrap();
    assert_eq!(short.pretty(0, 10, &render), "-foo");
    assert_eq!(short.prettify(&render), "-foo");
    let sq = Expr::new_subquery_expr(rate, Duration::from_secs(300), None).unwrap();
    assert_eq!(sq.pretty(0, 10, &render), "rate(\n  foo[1m]\n)[5m:]");
}

#[test]
fn test_pretty_fits_on_one_line() {
    let inner = aggr(
        token::T_SUM,
        Some(LabelModifier::include_labels(vec!["job", "le"])),
        vec![call("rate", vec![matrix(vs("http_request_duration_seconds_bucket"), 600)])],
    );
    let e = Expr::new_unary_expr(call("histogram_quantile", vec![num(0.9), inner])).unwrap();
    let one_line = text(&e);
    assert_eq!(e.pretty(0, 1000, &render), one_line);
    assert_eq!(e.pretty(2, 1000, &render), format!("    {one_line}"));
    assert_eq!(e.prettify(&render), one_line);
}

fn neq(name: &str, value: &str) -> Matcher {
    Matcher::new(MatchOp::NotEqual, name, value)
}

fn re_match(name: &str, value: &str) -> Matcher {
    Matcher::new(MatchOp::Re(Pattern::new(value).unwrap()), name, value)
}

fn string(s: &str) -> Expr {
    Expr::from_str(s)
}

fn paren(e: Expr) -> Expr {
    Expr::new_paren_expr(e).unwrap()
}

fn neg(e: Expr) -> Expr {
    Expr::new_unary_expr(e).unwrap()
}

fn subquery(e: Expr, range_secs: u64, step_secs: Option<u64>) -> Expr {
    Expr::new_subquery_expr(e, Duration::from_secs(range_secs), step_secs.map(Duration::from_secs))
        .unwrap()
}

fn at_start(e: Expr) -> Expr {
    e.at_expr(AtModifier::Start).unwrap()
}

fn offset(e: Expr, secs: u64) -> Expr {
    e.offset_expr(Offset::Pos(Duration::from_secs(secs))).unwrap()
}

fn by(labels: Vec<&str>) -> Option<LabelModifier> {
    Some(LabelModifier::include_labels(labels))
}

/// `label_replace(<e>, "foo", "$1", "service", "(.*):.*")`
fn label_replace(e: Expr) -> Expr {
    call(
        "label_replace",
        vec![e, string("foo"), string("$1"), string("service"), string("(.*):.*")],
    )
}

/// `up{job="api-server",service="a:c"}`
fn up_api() -> Expr {
    sel(Some("up"), vec![eq("job", "api-server"), eq("service", "a:c")])
}

fn assert_pretty(cases: Vec<(Expr, &str)>) {
    for (expr, expect) in cases {
        assert_eq!(expect, expr.pretty(0, 10, &render));
    }
}

#[test]
fn test_call_expr_pretty() {
    let rate_foo = || call("rate", vec![matrix(vs("foo"), 60)]);
    let cases = vec![
        (rate_foo(), "rate(\n  foo[1m]\n)"),
        (call("sum_over_time", vec![matrix(vs("foo"), 60)]), "sum_over_time(\n  foo[1m]\n)"),
        (
            call(
                "rate",
                vec![offset(at_start(subquery(vs("long_vector_selector"), 600, Some(60))), 60)],
            ),
            "rate(\n  long_vector_selector[10m:1m] @ start() offset 1m\n)",
        ),
        (
            call("histogram_quantile", vec![num(0.9), rate_foo()]),
            "histogram_quantile(\n  0.9,\n  rate(\n    foo[1m]\n  )\n)",
        ),
        (
            call(
                "histogram_quantile",
                vec![num(0.9), call("rate", vec![at_start(matrix(vs("foo"), 60))])],
            ),
            "histogram_quantile(\n  0.9,\n  rate(\n    foo[1m] @ start()\n  )\n)",
        ),
        (
            call(
                "max_over_time",
                vec![offset(
                    at_start(subquery(
                        call("rate", vec![matrix(vs("demo_api_request_duration_seconds_count"), 60)]),
                        60,
                        None,
                    )),
                    60,
                )],
            ),
            "max_over_time(
  rate(
    demo_api_request_duration_seconds_count[1m]
  )[1m:] @ start() offset 1m
)",
        ),
        (
            label_replace(up_api()),
            r#"label_replace(
  up{job="api-server",service="a:c"},
  "foo",
  "$1",
  "service",
  "(.*):.*"
)"#,
        ),
        (
            label_replace(label_replace(up_api())),
            r#"label_replace(
  label_replace(
    up{job="api-server",service="a:c"},
    "foo",
    "$1",
    "service",
    "(.*):.*"
  ),
  "foo",
  "$1",
  "service",
  "(.*):.*"
)"#,
        ),
    ];
    assert_pretty(cases);
}

#[test]
fn test_paren_expr_pretty() {
    let add = |a: Expr, b: Expr| bin(a, token::T_ADD, None, b);
    let cases = vec![
        (paren(vs("foo")), "(foo)"),
        (paren(vs("_foo_long_")), "(\n  _foo_long_\n)"),
        (paren(paren(vs("foo_long"))), "(\n  (foo_long)\n)"),
        (paren(paren(vs("_foo_long_"))), "(\n  (\n    _foo_long_\n  )\n)"),
        (paren(paren(paren(vs("foo_long")))), "(\n  (\n    (foo_long)\n  )\n)"),
        (paren(add(num(1.0), num(2.0))), "(1 + 2)"),
        (paren(add(vs("foo"), vs("bar"))), "(\n  foo + bar\n)"),
        (
            paren(add(vs("foo_long"), vs("bar_long"))),
            "(\n    foo_long\n  +\n    bar_long\n)",
        ),
        (
            paren(add(add(vs("foo_long"), vs("bar_long")), vs("bar_2_long"))),
            "(
      foo_long
    +
      bar_long
  +
    bar_2_long
)",
        ),
        (
            paren(add(paren(add(vs("foo_long"), vs("bar_long"))), vs("bar_2_long"))),
            "(
    (
        foo_long
      +
        bar_long
    )
  +
    bar_2_long
)",
        ),
        (paren(add(num(1111.0), num(2222.0))), "(\n    1111\n  +\n    2222\n)"),
        (
            paren(call("sum_over_time", vec![matrix(vs("foo"), 60)])),
            "(\n  sum_over_time(\n    foo[1m]\n  )\n)",
        ),
        (
            paren(label_replace(up_api())),
            r#"(
  label_replace(
    up{job="api-server",service="a:c"},
    "foo",
    "$1",
    "service",
    "(.*):.*"
  )
)"#,
        ),
        (
            paren(label_replace(label_replace(up_api()))),
            r#"(
  label_replace(
    label_replace(
      up{job="api-server",service="a:c"},
      "foo",
      "$1",
      "service",
      "(.*):.*"
    ),
    "foo",
    "$1",
    "service",
    "(.*):.*"
  )
)"#,
        ),
        (
            paren(label_replace(label_replace(paren(up_api())))),
            r#"(
  label_replace(
    label_replace(
      (
        up{job="api-server",service="a:c"}
      ),
      "foo",
      "$1",
      "service",
      "(.*):.*"
    ),
    "foo",
    "$1",
    "service",
    "(.*):.*"
  )
)"#,
        ),
    ];
    assert_pretty(cases);
}

#[test]
fn test_unary_expr_pretty() {
    let rate_foo = || call("rate", vec![matrix(vs("foo"), 60)]);
    let neg_rate_at = || neg(call("rate", vec![at_start(matrix(vs("foo"), 60))]));
    let cases = vec![
        (neg(num(1.0)), "-1"),
        (neg(vs("vector_selector")), "-vector_selector"),
        (paren(neg(vs("vector_selector"))), "(\n  -vector_selector\n)"),
        (
            neg(call("histogram_quantile", vec![num(0.9), rate_foo()])),
            "-histogram_quantile(\n  0.9,\n  rate(\n    foo[1m]\n  )\n)",
        ),
        (
            neg(call(
                "histogram_quantile",
                vec![num(0.99), aggr(token::T_SUM, by(vec!["le"]), vec![rate_foo()])],
            )),
            "-histogram_quantile(
  0.99,
  sum by (le) (
    rate(
      foo[1m]
    )
  )
)",
        ),
        (
            neg(call("histogram_quantile", vec![num(0.9), neg_rate_at()])),
            "-histogram_quantile(\n  0.9,\n  -rate(\n    foo[1m] @ start()\n  )\n)",
        ),
        (
            paren(neg(call("histogram_quantile", vec![num(0.9), neg_rate_at()]))),
            "(
  -histogram_quantile(
    0.9,
    -rate(
      foo[1m] @ start()
    )
  )
)",
        ),
    ];
    assert_pretty(cases);
}

/// `(node_filesystem_avail_bytes{job="node",fstype!=""} / node_filesystem_size_bytes{..} * 100
/// < <limit> and predict_linear(node_filesystem_avail_bytes{..}[6h], <hours>*60*60) < 0 and
/// node_filesystem_readonly{..} == 0)`
fn filesystem_alert(limit: f64, hours: f64) -> Expr {
    let node_fs = |name: &str| sel(Some(name), vec![eq("job", "node"), neq("fstype", "")]);
    let ratio = bin(
        bin(node_fs("node_filesystem_avail_bytes"), token::T_DIV, None, node_fs("node_filesystem_size_bytes")),
        token::T_MUL,
        None,
        num(100.0),
    );
    let low = bin(ratio, token::T_LSS, None, num(limit));
    let secs = bin(bin(num(hours), token::T_MUL, None, num(60.0)), token::T_MUL, None, num(60.0));
    let predicted = call(
        "predict_linear",
        vec![matrix(node_fs("node_filesystem_avail_bytes"), 6 * 3600), secs],
    );
    let falling = bin(predicted, token::T_LSS, None, num(0.0));
    let writable = bin(node_fs("node_filesystem_readonly"), token::T_EQLC, None, num(0.0));
    paren(bin(bin(low, token::T_LAND, None, falling), token::T_LAND, None, writable))
}

#[test]
fn test_expr_pretty() {
    let deriv = || call("deriv", vec![matrix(vs("node_timex_offset_seconds"), 300)]);
    let timex = paren(bin(
        bin(vs("node_timex_offset_seconds"), token::T_GTR, None, num(0.05)),
        token::T_LAND,
        None,
        bin(deriv(), token::T_GTE, None, num(0.0)),
    ));
    let timex_neg = paren(bin(
        bin(vs("node_timex_offset_seconds"), token::T_LSS, None, neg(num(0.05))),
        token::T_LAND,
        None,
        bin(deriv(), token::T_LTE, None, num(0.0)),
    ));
    let node = |name: &str| sel(Some(name), vec![eq("job", "node")]);
    let add = |a: Expr, b: Expr| bin(a, token::T_ADD, None, b);
    let memory = bin(
        num(1.0),
        token::T_SUB,
        None,
        paren(bin(
            paren(bin(
                node("node_memory_MemAvailable_bytes"),
                token::T_LOR,
                None,
                paren(add(
                    add(
                        add(node("node_memory_Buffers_bytes"), node("node_memory_Cached_bytes")),
                        node("node_memory_MemFree_bytes"),
                    ),
                    node("node_memory_Slab_bytes"),
                )),
            )),
            token::T_DIV,
            None,
            node("node_memory_MemTotal_bytes"),
        )),
    );
    let am_rate = |name: &str, m: Matcher| {
        call("rate", vec![matrix(sel(Some(name), vec![eq("job", "alertmanager"), m]), 300)])
    };
    let failures = bin(
        aggr(
            token::T_MIN,
            by(vec!["job", "integration"]),
            vec![bin(
                am_rate("alertmanager_notifications_failed_total", re_match("integration", ".*")),
                token::T_DIV,
                None,
                am_rate("alertmanager_notifications_total", eq("integration", "~.*")),
            )],
        ),
        token::T_GTR,
        None,
        num(0.01),
    );
    let restarts = bin(
        paren(bin(
            aggr(
                token::T_COUNT,
                by(vec!["job"]),
                vec![bin(
                    call(
                        "changes",
                        vec![matrix(
                            sel(Some("process_start_time_seconds"), vec![eq("job", "alertmanager")]),
                            600,
                        )],
                    ),
                    token::T_GTR,
                    None,
                    num(4.0),
                )],
            ),
            token::T_DIV,
            None,
            aggr(
                token::T_COUNT,
                by(vec!["job"]),
                vec![sel(Some("up"), vec![eq("job", "alertmanager")])],
            ),
        )),
        token::T_GTE,
        None,
        num(0.5),
    );
    let cases = vec![
        (
            filesystem_alert(40.0, 24.0),
            r#"(
            node_filesystem_avail_bytes{fstype!="",job="node"}
          /
            node_filesystem_size_bytes{fstype!="",job="node"}
        *
          100
      <
        40
    and
        predict_linear(
          node_filesystem_avail_bytes{fstype!="",job="node"}[6h],
            24 * 60
          *
            60
        )
      <
        0
  and
      node_filesystem_readonly{fstype!="",job="node"}
    ==
      0
)"#,
        ),
        (
            filesystem_alert(20.0, 4.0),
            r#"(
            node_filesystem_avail_bytes{fstype!="",job="node"}
          /
            node_filesystem_size_bytes{fstype!="",job="node"}
        *
          100
      <
        20
    and
        predict_linear(
          node_filesystem_avail_bytes{fstype!="",job="node"}[6h],
            4 * 60
          *
            60
        )
      <
        0
  and
      node_filesystem_readonly{fstype!="",job="node"}
    ==
      0
)"#,
        ),
        (
            bin(timex, token::T_LOR, None, timex_neg),
            r#"  (
        node_timex_offset_seconds
      >
        0.05
    and
        deriv(
          node_timex_offset_seconds[5m]
        )
      >=
        0
  )
or
  (
        node_timex_offset_seconds
      <
        -0.05
    and
        deriv(
          node_timex_offset_seconds[5m]
        )
      <=
        0
  )"#,
        ),
        (
            memory,
            r#"  1
-
  (
      (
          node_memory_MemAvailable_bytes{job="node"}
        or
          (
                  node_memory_Buffers_bytes{job="node"}
                +
                  node_memory_Cached_bytes{job="node"}
              +
                node_memory_MemFree_bytes{job="node"}
            +
              node_memory_Slab_bytes{job="node"}
          )
      )
    /
      node_memory_MemTotal_bytes{job="node"}
  )"#,
        ),
        (
            failures,
            r#"  min by (job, integration) (
      rate(
        alertmanager_notifications_failed_total{integration=~".*",job="alertmanager"}[5m]
      )
    /
      rate(
        alertmanager_notifications_total{integration="~.*",job="alertmanager"}[5m]
      )
  )
>
  0.01"#,
        ),
        (
            restarts,
            r#"  (
      count by (job) (
          changes(
            process_start_time_seconds{job="alertmanager"}[10m]
          )
        >
          4
      )
    /
      count by (job) (
        up{job="alertmanager"}
      )
  )
>=
  0.5"#,
        ),
    ];
    assert_pretty(cases);
}

#[test]
fn test_step_invariant_pretty() {
    let cases = vec![
        (vs("a").at_expr(AtModifier::At(1000)).unwrap(), "a @ 1.000"),
        (at_start(vs("a")), "a @ start()"),
        (at_start(vs("vector_selector")), "vector_selector @ start()"),
    ];
    assert_pretty(cases);
}
