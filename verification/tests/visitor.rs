use promql_parser::label::matcher::{MatchOp, Matcher, Matchers};
use promql_parser::parser::ast::{Expr, LabelModifier, VectorSelector};
use promql_parser::parser::function::{get_function, FunctionArgs};
use promql_parser::parser::token;
use promql_parser::util::duration::Duration;
use promql_parser::util::visitor::{walk_expr, ExprVisitor};

struct NamespaceVisitor {
    namespace: String,
}

fn vector_selector_includes_namespace(namespace: &str, vector_selector: &VectorSelector) -> bool {
    let mut includes_namespace = false;
    for filters in &vector_selector.matchers.matchers {
        if filters.name.eq("namespace") && filters.value.eq(namespace) && filters.op == MatchOp::Equal
        {
            includes_namespace = true;
            break;
        }
    }
    includes_namespace
}

impl ExprVisitor for NamespaceVisitor {
    type Error = &'static str;

    fn pre_visit(&mut self, expr: &Expr) -> Result<bool, Self::Error> {
        match expr {
            Expr::VectorSelector(vector_selector) => {
                let included =
                    vector_selector_includes_namespace(self.namespace.as_str(), vector_selector);
                return Ok(included);
            }
            Expr::MatrixSelector(matrix_selector) => {
                let included =
                    vector_selector_includes_namespace(self.namespace.as_str(), &matrix_selector.vs);
                return Ok(included);
            }
            Expr::NumberLiteral(_) | Expr::StringLiteral(_) => return Ok(false),
            _ => (),
        }
        Ok(true)
    }

    fn post_visit(&mut self, _expr: &Expr) -> Result<bool, Self::Error> {
        Ok(true)
    }
}

fn pg(ns: Option<&str>) -> Expr {
    let matchers = match ns {
        Some(n) => Matchers::one(Matcher::new(MatchOp::Equal, "namespace", n)),
        None => Matchers::empty(),
    };
    Expr::new_vector_selector(Some("pg_stat_activity_count".to_string()), matchers).unwrap()
}

fn num(v: f64) -> Expr {
    Expr::from_number(v.to_bits())
}

/// (sum by (namespace) (max_over_time(<selector>[1h])))
fn nested(ns: Option<&str>) -> Expr {
    let ms = Expr::new_matrix_selector(pg(ns), Duration::from_secs(3600)).unwrap();
    let call = Expr::new_call(
        get_function("max_over_time").unwrap(),
        FunctionArgs::new_args(ms),
    )
    .unwrap();
    let sum = Expr::new_aggregate_expr(
        token::T_SUM,
        Some(LabelModifier::include_labels(vec!["namespace"])),
        FunctionArgs::new_args(call),
    )
    .unwrap();
    Expr::new_paren_expr(sum).unwrap()
}

fn visitor(ns: &str) -> NamespaceVisitor {
    NamespaceVisitor {
        namespace: ns.to_string(),
    }
}

#[test]
fn test_check_for_namespace_basic_query() {
    assert!(walk_expr(&mut visitor("sample"), &pg(Some("sample"))).unwrap());
}

#[test]
fn test_check_for_namespace_label_present() {
    assert!(walk_expr(&mut visitor("sample"), &nested(Some("sample"))).unwrap());
}

#[test]
fn test_check_for_namespace_label_wrong_namespace() {
    assert!(!walk_expr(&mut visitor("foobar"), &nested(Some("sample"))).unwrap());
}

#[test]
fn test_check_for_namespace_label_missing_namespace() {
    assert!(!walk_expr(&mut visitor("sample"), &nested(None)).unwrap());
}

#[test]
fn test_literal_expr() {
    let mut v = visitor("sample");
    assert!(!walk_expr(&mut v, &num(1.0)).unwrap());
    let sum = Expr::new_binary_expr(num(1.0), token::T_ADD, None, num(1.0)).unwrap();
    assert!(!walk_expr(&mut v, &sum).unwrap());
    assert!(!walk_expr(&mut v, &Expr::from_str("1")).unwrap());
}

#[test]
fn test_binary_expr() {
    let mut v = visitor("sample");
    let bin = |l: Expr, op: u8, r: Expr| Expr::new_binary_expr(l, op, None, r).unwrap();
    assert!(!walk_expr(&mut v, &bin(pg(Some("sample")), token::T_ADD, pg(None))).unwrap());
    assert!(!walk_expr(&mut v, &bin(pg(None), token::T_SUB, pg(Some("sample")))).unwrap());
    assert!(!walk_expr(&mut v, &bin(pg(None), token::T_MUL, pg(None))).unwrap());
    assert!(!walk_expr(&mut v, &bin(pg(Some("sample")), token::T_DIV, num(1.0))).unwrap());
    assert!(!walk_expr(&mut v, &bin(num(1.0), token::T_MOD, pg(Some("sample")))).unwrap());
    assert!(walk_expr(&mut v, &bin(pg(Some("sample")), token::T_POW, pg(Some("sample")))).unwrap());
}

struct Recorder {
    events: Vec<String>,
    fail_on: Option<&'static str>,
}

impl ExprVisitor for Recorder {
    type Error = String;

    fn pre_visit(&mut self, expr: &Expr) -> Result<bool, Self::Error> {
        let name = match expr {
            Expr::VectorSelector(vs) => vs.name.clone().unwrap_or_default(),
            Expr::Binary(_) => "bin".to_string(),
            Expr::Call(c) => c.func.name.to_string(),
            _ => "other".to_string(),
        };
        if Some(name.as_str()) == self.fail_on {
            return Err(format!("refused {name}"));
        }
        self.events.push(format!("pre {name}"));
        Ok(true)
    }

    fn post_visit(&mut self, _expr: &Expr) -> Result<bool, Self::Error> {
        self.events.push("post".to_string());
        Ok(true)
    }
}

#[test]
fn test_walk_order_and_errors() {
    let a = Expr::from(VectorSelector::from("a"));
    let b = Expr::from(VectorSelector::from("b"));
    let c = Expr::from(VectorSelector::from("c"));
    let call = Expr::new_call(
        get_function("label_join").unwrap(),
        FunctionArgs::new_args(b).append_args(c),
    )
    .unwrap();
    let e = Expr::new_binary_expr(a, token::T_ADD, None, call).unwrap();
    let mut r = Recorder { events: vec![], fail_on: None };
    assert_eq!(walk_expr(&mut r, &e), Ok(true));
    assert_eq!(
        r.events,
        vec!["pre bin", "pre a", "post", "pre label_join", "pre b", "post", "pre c", "post", "post", "post"]
    );
    let mut r = Recorder { events: vec![], fail_on: Some("c") };
    assert_eq!(walk_expr(&mut r, &e), Err("refused c".to_string()));
    assert_eq!(r.events, vec!["pre bin", "pre a", "post", "pre label_join", "pre b", "post"]);
}
