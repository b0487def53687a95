use promql_parser::parser::ast::{Expr, StringLiteral, VectorSelector};
use promql_parser::parser::function::{get_function, FunctionArgs};
use promql_parser::parser::value::ValueType;

#[test]
fn test_function_equality() {
    let func = "month";
    assert!(get_function(func).is_some());
    assert_eq!(get_function(func), get_function(func));
}

#[test]
fn test_function_args_equality() {
    assert_eq!(FunctionArgs::empty_args(), FunctionArgs::empty_args());

    let arg1 = Expr::from_number(1.0f64.to_bits());
    let arg2 = Expr::StringLiteral(StringLiteral {
        val: "prometheus".into(),
    });
    let args1 = FunctionArgs::new_args(arg1).append_args(arg2);

    let arg1 = Expr::from_number((0.5f64 + 0.5).to_bits());
    let arg2 = Expr::StringLiteral(StringLiteral {
        val: String::from("prometheus"),
    });
    let args2 = FunctionArgs::new_args(arg1).append_args(arg2);

    assert_eq!(args1, args2);
}

#[test]
fn test_function_metadata() {
    let round = get_function("round").unwrap();
    assert_eq!(round.variadic, 1);
    assert!(!round.experimental);

    let label_join = get_function("label_join").unwrap();
    assert_eq!(label_join.variadic, -1);
    assert!(!label_join.experimental);

    let sort_by_label = get_function("sort_by_label").unwrap();
    assert_eq!(sort_by_label.variadic, -1);
    assert!(sort_by_label.experimental);

    let rate = get_function("rate").unwrap();
    assert_eq!(rate.variadic, 0);
    assert!(!rate.experimental);
}

#[test]
fn test_function_signatures() {
    let clamp = get_function("clamp").unwrap();
    assert_eq!(clamp.name, "clamp");
    assert_eq!(
        clamp.arg_types,
        vec![ValueType::Vector, ValueType::Scalar, ValueType::Scalar]
    );
    assert_eq!(clamp.return_type, ValueType::Vector);
    let time = get_function("time").unwrap();
    assert!(time.arg_types.is_empty());
    assert_eq!(time.return_type, ValueType::Scalar);
    assert!(get_function("no_such_function").is_none());
    assert!(get_function("").is_none());
}

#[test]
fn test_function_args_first_last() {
    let args = FunctionArgs::new_args(Expr::from_str("a")).append_args(Expr::from_str("b"));
    assert_eq!(args.len(), 2);
    assert_eq!(args.first(), Some(&Expr::from_str("a")));
    assert_eq!(args.last(), Some(&Expr::from_str("b")));
    assert!(FunctionArgs::empty_args().first().is_none());
    assert!(FunctionArgs::empty_args().is_empty());
}

#[test]
fn test_args_display() {
    let render = |b: u64| format!("{}", f64::from_bits(b));
    let cases = vec![
        (
            FunctionArgs::new_args(Expr::from(VectorSelector::from("up"))),
            "up",
        ),
        (
            FunctionArgs::empty_args()
                .append_args(Expr::from_str("src1"))
                .append_args(Expr::from_str("src2"))
                .append_args(Expr::from_str("src3")),
            r#""src1", "src2", "src3""#,
        ),
    ];

    for (args, expect) in cases {
        assert_eq!(expect, args.to_text(&render))
    }
}
