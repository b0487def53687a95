use promql_parser::label::matcher::{MatchOp, Matcher, Matchers, Pattern};
use promql_parser::label::Labels;
use promql_parser::parser::ast::{
    check_ast, AtModifier, BinModifier, Expr, LabelModifier, NumberLiteral, Offset, UnaryExpr,
    VectorMatchCardinality, VectorSelector,
};
use promql_parser::parser::function::{get_function, FunctionArgs};
use promql_parser::parser::token;
use promql_parser::parser::value::ValueType;
use promql_parser::util::duration::Duration;

fn num(v: f64) -> Expr {
    Expr::from_number(v.to_bits())
}

fn vs(name: &str) -> Expr {
    Expr::from(VectorSelector::from(name))
}

#[test]
fn test_binary_labels() {
    assert_eq!(
        &Labels::new(vec!["foo", "bar"]),
        LabelModifier::Include(Labels::new(vec!["foo", "bar"])).labels()
    );

    assert_eq!(
        &Labels::new(vec!["foo", "bar"]),
        LabelModifier::Exclude(Labels::new(vec!["foo", "bar"])).labels()
    );

    assert_eq!(
        &Labels::new(vec!["foo", "bar"]),
        VectorMatchCardinality::OneToMany(Labels::new(vec!["foo", "bar"]))
            .labels()
            .unwrap()
    );

    assert_eq!(
        &Labels::new(vec!["foo", "bar"]),
        VectorMatchCardinality::ManyToOne(Labels::new(vec!["foo", "bar"]))
            .labels()
            .unwrap()
    );

    assert_eq!(VectorMatchCardinality::OneToOne.labels(), None);
    assert_eq!(VectorMatchCardinality::ManyToMany.labels(), None);
}

#[test]
fn test_invalid_at_modifier() {
    assert_eq!(
        AtModifier::from_token_id(token::T_ADD),
        Err("invalid @ modifier preprocessor '+', START or END is valid.".into())
    );
    assert_eq!(AtModifier::from_token_id(token::T_START), Ok(AtModifier::Start));
    assert_eq!(AtModifier::from_token_id(token::T_END), Ok(AtModifier::End));
}

#[test]
fn test_at_modifier_to_string() {
    assert_eq!(AtModifier::Start.to_string(), "@ start()");
    assert_eq!(AtModifier::End.to_string(), "@ end()");
    assert_eq!(AtModifier::At(1_000_300).to_string(), "@ 1000.000");
    assert_eq!(AtModifier::At(-1_000_300).to_string(), "@ 0.000");
    assert_eq!(AtModifier::At(0).to_string(), "@ 0.000");
    // beyond 2^53 seconds only even counts of seconds are binary64 values
    let secs: i128 = (1i128 << 53) + 1;
    assert_eq!(
        AtModifier::At(secs * 1000).to_string(),
        format!("@ {:.3}", secs as f64)
    );
}

#[test]
fn test_neg() {
    assert_eq!(
        -VectorSelector::from("foo"),
        UnaryExpr {
            expr: Box::new(Expr::from(VectorSelector::from("foo")))
        }
    )
}

#[test]
fn test_neg_number() {
    assert_eq!(-num(1.5), num(-1.5));
    assert_eq!(-(-num(2.0)), num(2.0));
    assert_eq!(-num(0.0), num(0.0));
    assert_eq!(num(f64::NAN), num(-f64::NAN));
    assert_ne!(num(1.0), num(-1.0));
    assert_eq!(
        -vs("foo"),
        Expr::Unary(UnaryExpr {
            expr: Box::new(vs("foo"))
        })
    );
}

#[test]
fn test_scalar_value() {
    assert_eq!(Some(1.0f64.to_bits()), num(1.0).scalar_value());
    assert_eq!(None, Expr::from_str("1.0").scalar_value());
}

#[test]
fn test_at_expr() {
    assert_eq!(
        "@ <timestamp> may not be set multiple times",
        vs("foo")
            .at_expr(AtModifier::At(1000))
            .and_then(|ex| ex.at_expr(AtModifier::At(1000)))
            .unwrap_err()
    );

    assert_eq!(
        "@ <timestamp> may not be set multiple times",
        Expr::new_matrix_selector(vs("foo"), Duration::from_secs(1))
            .and_then(|ex| ex.at_expr(AtModifier::At(1000)))
            .and_then(|ex| ex.at_expr(AtModifier::At(1000)))
            .unwrap_err()
    );

    assert_eq!(
        "@ <timestamp> may not be set multiple times",
        Expr::new_subquery_expr(vs("foo"), Duration::from_secs(1), None)
            .and_then(|ex| ex.at_expr(AtModifier::At(1000)))
            .and_then(|ex| ex.at_expr(AtModifier::At(1000)))
            .unwrap_err()
    );

    assert_eq!(
        "@ modifier must be preceded by an vector selector or matrix selector or a subquery",
        num(1.0).at_expr(AtModifier::Start).unwrap_err()
    );
}

#[test]
fn test_offset_expr() {
    assert_eq!(
        "offset may not be set multiple times",
        vs("foo")
            .offset_expr(Offset::Pos(Duration::from_secs(1000)))
            .and_then(|ex| ex.offset_expr(Offset::Pos(Duration::from_secs(1000))))
            .unwrap_err()
    );

    assert_eq!(
        "offset may not be set multiple times",
        Expr::new_matrix_selector(vs("foo"), Duration::from_secs(1))
            .and_then(|ex| ex.offset_expr(Offset::Pos(Duration::from_secs(1000))))
            .and_then(|ex| ex.offset_expr(Offset::Pos(Duration::from_secs(1000))))
            .unwrap_err()
    );

    assert_eq!(
        "offset may not be set multiple times",
        Expr::new_subquery_expr(vs("foo"), Duration::from_secs(1), None)
            .and_then(|ex| ex.offset_expr(Offset::Pos(Duration::from_secs(1000))))
            .and_then(|ex| ex.offset_expr(Offset::Pos(Duration::from_secs(1000))))
            .unwrap_err()
    );
}

#[test]
fn test_matrix_selector_errors() {
    let with_offset = vs("foo")
        .offset_expr(Offset::Neg(Duration::from_secs(5)))
        .unwrap();
    assert_eq!(
        Expr::new_matrix_selector(with_offset, Duration::from_secs(1)).unwrap_err(),
        "no offset modifiers allowed before range"
    );
    let with_at = vs("foo").at_expr(AtModifier::End).unwrap();
    assert_eq!(
        Expr::new_matrix_selector(with_at, Duration::from_secs(1)).unwrap_err(),
        "no @ modifiers allowed before range"
    );
    assert_eq!(
        Expr::new_matrix_selector(num(1.0), Duration::from_secs(1)).unwrap_err(),
        "ranges only allowed for vector selectors"
    );
}

#[test]
fn test_unary_expr_errors() {
    assert_eq!(
        Expr::new_unary_expr(Expr::from_str("a")).unwrap_err(),
        "unary expression only allowed on expressions of type scalar or vector, got: string"
    );
    let ms = Expr::new_matrix_selector(vs("foo"), Duration::from_secs(1)).unwrap();
    assert_eq!(
        Expr::new_unary_expr(ms).unwrap_err(),
        "unary expression only allowed on expressions of type scalar or vector, got: matrix"
    );
    assert_eq!(Expr::new_unary_expr(num(3.0)).unwrap(), num(-3.0));
}

#[test]
fn test_value_types() {
    assert_eq!(num(1.0).value_type(), ValueType::Scalar);
    assert_eq!(Expr::from_str("x").value_type(), ValueType::String);
    assert_eq!(vs("foo").value_type(), ValueType::Vector);
    let bin = Expr::new_binary_expr(num(1.0), token::T_ADD, None, num(2.0)).unwrap();
    assert_eq!(bin.value_type(), ValueType::Scalar);
    let bin = Expr::new_binary_expr(vs("a"), token::T_ADD, None, num(2.0)).unwrap();
    assert_eq!(bin.value_type(), ValueType::Vector);
    let sq = Expr::new_subquery_expr(vs("a"), Duration::from_secs(60), None).unwrap();
    assert_eq!(sq.value_type(), ValueType::Matrix);
    let call = Expr::new_call(
        get_function("time").unwrap(),
        FunctionArgs::empty_args(),
    )
    .unwrap();
    assert_eq!(call.value_type(), ValueType::Scalar);
}

#[test]
fn test_new_aggregate_expr() {
    assert_eq!(
        Expr::new_aggregate_expr(token::T_SUM, None, FunctionArgs::empty_args()).unwrap_err(),
        "no arguments for aggregate expression 'sum' provided"
    );
    assert_eq!(
        Expr::new_aggregate_expr(token::T_TOPK, None, FunctionArgs::new_args(vs("a"))).unwrap_err(),
        "wrong number of arguments for aggregate expression provided, expected 2, got 1"
    );
    let ex = Expr::new_aggregate_expr(
        token::T_TOPK,
        Some(LabelModifier::include_labels(vec!["job"])),
        FunctionArgs::new_args(num(5.0)).append_args(vs("a")),
    )
    .unwrap();
    match ex {
        Expr::Aggregate(a) => {
            assert_eq!(*a.expr, vs("a"));
            assert_eq!(a.param.map(|p| *p), Some(num(5.0)));
        }
        _ => panic!(),
    }
}

#[test]
fn test_check_ast_binary() {
    let scalar_cmp = Expr::new_binary_expr(num(1.0), token::T_EQLC, None, num(2.0)).unwrap();
    assert_eq!(
        check_ast(scalar_cmp).unwrap_err(),
        "comparisons between scalars must use BOOL modifier"
    );
    let bool_add = Expr::new_binary_expr(
        vs("a"),
        token::T_ADD,
        Some(BinModifier::default().with_return_bool(true)),
        vs("b"),
    )
    .unwrap();
    assert_eq!(
        check_ast(bool_add).unwrap_err(),
        "bool modifier can only be used on comparison operators"
    );
    let not_op = Expr::new_binary_expr(vs("a"), token::T_SUM, None, vs("b")).unwrap();
    assert_eq!(
        check_ast(not_op).unwrap_err(),
        "binary expression does not support operator 'sum'"
    );
    let set_scalar = Expr::new_binary_expr(num(1.0), token::T_LAND, None, vs("b")).unwrap();
    assert_eq!(
        check_ast(set_scalar).unwrap_err(),
        "set operator 'and' not allowed in binary scalar expression"
    );
    let joint = Expr::new_binary_expr(
        vs("a"),
        token::T_ADD,
        Some(
            BinModifier::default()
                .with_card(VectorMatchCardinality::many_to_one(vec!["x", "y"]))
                .with_matching(Some(LabelModifier::include_labels(vec!["y"]))),
        ),
        vs("b"),
    )
    .unwrap();
    assert_eq!(
        check_ast(joint).unwrap_err(),
        "label 'y' must not occur in ON and GROUP clause at once"
    );
    let grouped_set = Expr::new_binary_expr(
        vs("a"),
        token::T_LOR,
        Some(BinModifier::default().with_card(VectorMatchCardinality::one_to_many(vec!["x"]))),
        vs("b"),
    )
    .unwrap();
    assert_eq!(
        check_ast(grouped_set).unwrap_err(),
        "no grouping allowed for 'or' operation"
    );
    let matching_scalar = Expr::new_binary_expr(
        num(1.0),
        token::T_ADD,
        Some(BinModifier::default().with_matching(Some(LabelModifier::exclude(vec!["x"])))),
        vs("b"),
    )
    .unwrap();
    assert_eq!(
        check_ast(matching_scalar).unwrap_err(),
        "vector matching only allowed between vectors"
    );
    let string_operand =
        Expr::new_binary_expr(Expr::from_str("s"), token::T_ADD, None, vs("b")).unwrap();
    assert_eq!(
        check_ast(string_operand).unwrap_err(),
        "binary expression must contain only scalar and instant vector types"
    );
    // a set operation without modifier becomes many-to-many
    let set_op = Expr::new_binary_expr(vs("a"), token::T_LUNLESS, None, vs("b")).unwrap();
    match check_ast(set_op).unwrap() {
        Expr::Binary(b) => assert_eq!(
            b.modifier,
            Some(BinModifier::default().with_card(VectorMatchCardinality::ManyToMany))
        ),
        _ => panic!(),
    }
}

#[test]
fn test_check_ast_aggregate() {
    let bad = Expr::new_aggregate_expr(token::T_SUM, None, FunctionArgs::new_args(num(1.0)))
        .unwrap();
    assert_eq!(
        check_ast(bad).unwrap_err(),
        "expected type vector in aggregation expression, got scalar"
    );
    let bad_param = Expr::new_aggregate_expr(
        token::T_TOPK,
        None,
        FunctionArgs::new_args(Expr::from_str("x")).append_args(vs("a")),
    )
    .unwrap();
    assert_eq!(
        check_ast(bad_param).unwrap_err(),
        "expected type scalar in aggregation expression, got string"
    );
    let bad_count = Expr::new_aggregate_expr(
        token::T_COUNT_VALUES,
        None,
        FunctionArgs::new_args(num(1.0)).append_args(vs("a")),
    )
    .unwrap();
    assert_eq!(
        check_ast(bad_count).unwrap_err(),
        "expected type string in aggregation expression, got scalar"
    );
    let ok = Expr::new_aggregate_expr(token::T_SUM, None, FunctionArgs::new_args(vs("a"))).unwrap();
    assert!(check_ast(ok).is_ok());
}

#[test]
fn test_check_ast_call() {
    let rate = Expr::new_call(get_function("rate").unwrap(), FunctionArgs::new_args(vs("a")))
        .unwrap();
    assert_eq!(
        check_ast(rate).unwrap_err(),
        "expected type matrix in call to function 'rate', got vector"
    );
    let round = Expr::new_call(get_function("round").unwrap(), FunctionArgs::empty_args()).unwrap();
    assert_eq!(
        check_ast(round).unwrap_err(),
        "expected at least 1 argument(s) in call to 'round', got 0"
    );
    let round = Expr::new_call(
        get_function("round").unwrap(),
        FunctionArgs::new_args(vs("a"))
            .append_args(num(1.0))
            .append_args(num(2.0)),
    )
    .unwrap();
    assert_eq!(
        check_ast(round).unwrap_err(),
        "expected at most 2 argument(s) in call to 'round', got 3"
    );
    let abs = Expr::new_call(get_function("abs").unwrap(), FunctionArgs::empty_args()).unwrap();
    assert_eq!(
        check_ast(abs).unwrap_err(),
        "expected 1 argument(s) in call to 'abs', got 0"
    );
    let join = Expr::new_call(
        get_function("label_join").unwrap(),
        FunctionArgs::new_args(vs("a"))
            .append_args(Expr::from_str("dst"))
            .append_args(Expr::from_str(","))
            .append_args(Expr::from_str("s1"))
            .append_args(Expr::from_str("s2")),
    )
    .unwrap();
    assert!(check_ast(join).is_ok());
    // exp(+Inf) and ln(0) are special values, not type errors
    let exp = Expr::new_call(
        get_function("exp").unwrap(),
        FunctionArgs::new_args(num(f64::INFINITY)),
    )
    .unwrap();
    assert!(check_ast(exp).is_ok());
    let ln = Expr::new_call(get_function("ln").unwrap(), FunctionArgs::new_args(num(0.0))).unwrap();
    assert!(check_ast(ln).is_ok());
    let ln = Expr::new_call(get_function("ln").unwrap(), FunctionArgs::new_args(num(2.0))).unwrap();
    assert_eq!(
        check_ast(ln).unwrap_err(),
        "expected type vector in call to function 'ln', got scalar"
    );
}

#[test]
fn test_check_ast_others() {
    let neg_str = Expr::Unary(UnaryExpr {
        expr: Box::new(Expr::from_str("s")),
    });
    assert_eq!(
        check_ast(neg_str).unwrap_err(),
        "unary expression only allowed on expressions of type scalar or vector, got string"
    );
    let sq = Expr::new_subquery_expr(num(1.0), Duration::from_secs(60), None).unwrap();
    assert_eq!(
        check_ast(sq).unwrap_err(),
        "subquery is only allowed on vector, got scalar instead"
    );
    let twice = Expr::new_vector_selector(
        Some(String::from("foo")),
        Matchers::one(Matcher::new(MatchOp::Equal, "__name__", "bar")),
    )
    .unwrap();
    assert_eq!(
        check_ast(twice).unwrap_err(),
        "metric name must not be set twice: 'foo' or 'bar'"
    );
    let empty = Expr::new_vector_selector(
        None,
        Matchers::one(Matcher::new(
            MatchOp::Re(Pattern::new(".*").unwrap()),
            "job",
            ".*",
        )),
    )
    .unwrap();
    assert_eq!(
        check_ast(empty).unwrap_err(),
        "vector selector must contain at least one non-empty matcher"
    );
    let fine = Expr::new_vector_selector(
        None,
        Matchers::one(Matcher::new(MatchOp::Equal, "job", "x")),
    )
    .unwrap();
    assert!(check_ast(fine).is_ok());
    assert_eq!(check_ast(num(1.0)).unwrap(), num(1.0));
}

#[test]
fn test_number_literal_predicates() {
    assert!(NumberLiteral::new(f64::NAN.to_bits()).is_nan());
    assert!(NumberLiteral::new(f64::NEG_INFINITY.to_bits()).is_infinite());
    assert!(NumberLiteral::new((-0.0f64).to_bits()).is_le_zero());
    assert!(NumberLiteral::new((-3.5f64).to_bits()).is_le_zero());
    assert!(!NumberLiteral::new(3.5f64.to_bits()).is_le_zero());
    assert!(!NumberLiteral::new(f64::NAN.to_bits()).is_le_zero());
}

#[test]
fn test_check_ast_idempotent() {
    let set_op = Expr::new_binary_expr(vs("a"), token::T_LOR, None, vs("b")).unwrap();
    let once = check_ast(set_op).unwrap();
    let twice = check_ast(Expr::new_binary_expr(vs("a"), token::T_LOR, Some(BinModifier::default().with_card(VectorMatchCardinality::ManyToMany)), vs("b")).unwrap()).unwrap();
    assert_eq!(once, twice);
    let cmp = Expr::new_binary_expr(
        num(1.0),
        token::T_GTR,
        Some(BinModifier::default().with_return_bool(true)),
        num(2.0),
    )
    .unwrap();
    let checked = check_ast(cmp).unwrap();
    assert_eq!(checked.value_type(), ValueType::Scalar);
}

#[test]
fn test_at_offset_commute() {
    let a = vs("foo")
        .at_expr(AtModifier::End)
        .and_then(|e| e.offset_expr(Offset::Neg(Duration::from_secs(60))))
        .unwrap();
    let b = vs("foo")
        .offset_expr(Offset::Neg(Duration::from_secs(60)))
        .and_then(|e| e.at_expr(AtModifier::End))
        .unwrap();
    assert_eq!(a, b);
}
