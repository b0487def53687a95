//! The functions of PromQL and their signatures.
use vstd::prelude::*;

use crate::parser::ast::Expr;
use crate::parser::value::ValueType;
use crate::util::text::str_eq;

verus! {

/// The arguments of a function call.
#[derive(Debug, PartialEq, Eq)]
pub struct FunctionArgs {
    pub args: Vec<Box<Expr>>,
}

impl FunctionArgs {
    pub fn empty_args() -> (a: FunctionArgs)
        ensures
            a.args@.len() == 0,
    {
        FunctionArgs { args: Vec::new() }
    }

    pub fn new_args(expr: Expr) -> (a: FunctionArgs)
        ensures
            a.args@ == seq![Box::new(expr)],
    {
        let mut args = Vec::new();
        args.push(Box::new(expr));
        FunctionArgs { args }
    }

    pub fn append_args(self, expr: Expr) -> (a: FunctionArgs)
        ensures
            a.args@ == self.args@.push(Box::new(expr)),
    {
        let mut args = self.args;
        args.push(Box::new(expr));
        FunctionArgs { args }
    }

    pub fn is_empty(&self) -> (b: bool)
        ensures
            b == (self.args@.len() == 0),
    {
        self.args.len() == 0
    }

    pub fn len(&self) -> (n: usize)
        ensures
            n == self.args@.len(),
    {
        self.args.len()
    }

    /// The first argument, if there is one.
    pub fn first(&self) -> (r: Option<&Expr>)
        ensures
            self.args@.len() == 0 ==> r is None,
            self.args@.len() > 0 ==> r == Some(&*self.args@[0]),
    {
        if self.args.len() == 0 {
            None
        } else {
            Some(&*self.args[0])
        }
    }

    /// The last argument, if there is one.
    pub fn last(&self) -> (r: Option<&Expr>)
        ensures
            self.args@.len() == 0 ==> r is None,
            self.args@.len() > 0 ==> r == Some(&*self.args@.last()),
    {
        if self.args.len() == 0 {
            None
        } else {
            Some(&*self.args[self.args.len() - 1])
        }
    }
}

/// A PromQL function with its signature.
#[derive(Debug, Clone, PartialEq, Eq)]
pub struct Function {
    pub name: &'static str,
    pub arg_types: Vec<ValueType>,
    /// How many arguments may follow the fixed ones: 0 for none (exactly as many
    /// arguments as argument types), a positive count for a bounded number of optional
    /// arguments, a negative one for any number.
    pub variadic: i32,
    pub return_type: ValueType,
    pub experimental: bool,
}

impl Function {
    pub fn new(
        name: &'static str,
        arg_types: Vec<ValueType>,
        variadic: i32,
        return_type: ValueType,
        experimental: bool,
    ) -> (f: Function)
        ensures
            f.name == name,
            f.arg_types == arg_types,
            f.variadic == variadic,
            f.return_type == return_type,
            f.experimental == experimental,
    {
        Function { name, arg_types, variadic, return_type, experimental }
    }
}

/// The signature of the predefined function `name`: argument types, variadic count,
/// return type and whether it is experimental.
pub open spec fn spec_function(name: Seq<char>) -> Option<(Seq<ValueType>, i32, ValueType, bool)> {
    if name == "abs"@ {
        Some((seq![ValueType::Vector], 0i32, ValueType::Vector, false))
    } else if name == "absent"@ {
        Some((seq![ValueType::Vector], 0i32, ValueType::Vector, false))
    } else if name == "absent_over_time"@ {
        Some((seq![ValueType::Matrix], 0i32, ValueType::Vector, false))
    } else if name == "acos"@ {
        Some((seq![ValueType::Vector], 0i32, ValueType::Vector, false))
    } else if name == "acosh"@ {
        Some((seq![ValueType::Vector], 0i32, ValueType::Vector, false))
    } else if name == "asin"@ {
        Some((seq![ValueType::Vector], 0i32, ValueType::Vector, false))
    } else if name == "asinh"@ {
        Some((seq![ValueType::Vector], 0i32, ValueType::Vector, false))
    } else if name == "atan"@ {
        Some((seq![ValueType::Vector], 0i32, ValueType::Vector, false))
    } else if name == "atanh"@ {
        Some((seq![ValueType::Vector], 0i32, ValueType::Vector, false))
    } else if name == "avg_over_time"@ {
        Some((seq![ValueType::Matrix], 0i32, ValueType::Vector, false))
    } else if name == "ceil"@ {
        Some((seq![ValueType::Vector], 0i32, ValueType::Vector, false))
    } else if name == "changes"@ {
        Some((seq![ValueType::Matrix], 0i32, ValueType::Vector, false))
    } else if name == "clamp"@ {
        Some((seq![ValueType::Vector, ValueType::Scalar, ValueType::Scalar], 0i32, ValueType::Vector, false))
    } else if name == "clamp_max"@ {
        Some((seq![ValueType::Vector, ValueType::Scalar], 0i32, ValueType::Vector, false))
    } else if name == "clamp_min"@ {
        Some((seq![ValueType::Vector, ValueType::Scalar], 0i32, ValueType::Vector, false))
    } else if name == "cos"@ {
        Some((seq![ValueType::Vector], 0i32, ValueType::Vector, false))
    } else if name == "cosh"@ {
        Some((seq![ValueType::Vector], 0i32, ValueType::Vector, false))
    } else if name == "count_over_time"@ {
        Some((seq![ValueType::Matrix], 0i32, ValueType::Vector, false))
    } else if name == "days_in_month"@ {
        Some((seq![ValueType::Vector], 1i32, ValueType::Vector, false))
    } else if name == "day_of_month"@ {
        Some((seq![ValueType::Vector], 1i32, ValueType::Vector, false))
    } else if name == "day_of_week"@ {
        Some((seq![ValueType::Vector], 1i32, ValueType::Vector, false))
    } else if name == "day_of_year"@ {
        Some((seq![ValueType::Vector], 1i32, ValueType::Vector, false))
    } else if name == "deg"@ {
        Some((seq![ValueType::Vector], 0i32, ValueType::Vector, false))
    } else if name == "delta"@ {
        Some((seq![ValueType::Matrix], 0i32, ValueType::Vector, false))
    } else if name == "deriv"@ {
        Some((seq![ValueType::Matrix], 0i32, ValueType::Vector, false))
    } else if name == "exp"@ {
        Some((seq![ValueType::Vector], 0i32, ValueType::Vector, false))
    } else if name == "floor"@ {
        Some((seq![ValueType::Vector], 0i32, ValueType::Vector, false))
    } else if name == "histogram_count"@ {
        Some((seq![ValueType::Vector], 0i32, ValueType::Vector, false))
    } else if name == "histogram_sum"@ {
        Some((seq![ValueType::Vector], 0i32, ValueType::Vector, false))
    } else if name == "histogram_avg"@ {
        Some((seq![ValueType::Vector], 0i32, ValueType::Vector, false))
    } else if name == "histogram_fraction"@ {
        Some((seq![ValueType::Scalar, ValueType::Scalar, ValueType::Vector], 0i32, ValueType::Vector, false))
    } else if name == "histogram_quantile"@ {
        Some((seq![ValueType::Scalar, ValueType::Vector], 0i32, ValueType::Vector, false))
    } else if name == "histogram_stddev"@ {
        Some((seq![ValueType::Vector], 0i32, ValueType::Vector, false))
    } else if name == "histogram_stdvar"@ {
        Some((seq![ValueType::Vector], 0i32, ValueType::Vector, false))
    } else if name == "double_exponential_smoothing"@ {
        Some((seq![ValueType::Matrix, ValueType::Scalar, ValueType::Scalar], 0i32, ValueType::Vector, true))
    } else if name == "holt_winters"@ {
        Some((seq![ValueType::Matrix, ValueType::Scalar, ValueType::Scalar], 0i32, ValueType::Vector, false))
    } else if name == "hour"@ {
        Some((seq![ValueType::Vector], 1i32, ValueType::Vector, false))
    } else if name == "idelta"@ {
        Some((seq![ValueType::Matrix], 0i32, ValueType::Vector, false))
    } else if name == "increase"@ {
        Some((seq![ValueType::Matrix], 0i32, ValueType::Vector, false))
    } else if name == "irate"@ {
        Some((seq![ValueType::Matrix], 0i32, ValueType::Vector, false))
    } else if name == "label_replace"@ {
        Some((seq![ValueType::Vector, ValueType::String, ValueType::String, ValueType::String, ValueType::String], 0i32, ValueType::Vector, false))
    } else if name == "label_join"@ {
        Some((seq![ValueType::Vector, ValueType::String, ValueType::String, ValueType::String], -1i32, ValueType::Vector, false))
    } else if name == "last_over_time"@ {
        Some((seq![ValueType::Matrix], 0i32, ValueType::Vector, false))
    } else if name == "ln"@ {
        Some((seq![ValueType::Vector], 0i32, ValueType::Vector, false))
    } else if name == "log10"@ {
        Some((seq![ValueType::Vector], 0i32, ValueType::Vector, false))
    } else if name == "log2"@ {
        Some((seq![ValueType::Vector], 0i32, ValueType::Vector, false))
    } else if name == "max_over_time"@ {
        Some((seq![ValueType::Matrix], 0i32, ValueType::Vector, false))
    } else if name == "min_over_time"@ {
        Some((seq![ValueType::Matrix], 0i32, ValueType::Vector, false))
    } else if name == "minute"@ {
        Some((seq![ValueType::Vector], 1i32, ValueType::Vector, false))
    } else if name == "month"@ {
        Some((seq![ValueType::Vector], 1i32, ValueType::Vector, false))
    } else if name == "pi"@ {
        Some((seq![], 0i32, ValueType::Scalar, false))
    } else if name == "predict_linear"@ {
        Some((seq![ValueType::Matrix, ValueType::Scalar], 0i32, ValueType::Vector, false))
    } else if name == "present_over_time"@ {
        Some((seq![ValueType::Matrix], 0i32, ValueType::Vector, false))
    } else if name == "quantile_over_time"@ {
        Some((seq![ValueType::Scalar, ValueType::Matrix], 0i32, ValueType::Vector, false))
    } else if name == "rad"@ {
        Some((seq![ValueType::Vector], 0i32, ValueType::Vector, false))
    } else if name == "rate"@ {
        Some((seq![ValueType::Matrix], 0i32, ValueType::Vector, false))
    } else if name == "resets"@ {
        Some((seq![ValueType::Matrix], 0i32, ValueType::Vector, false))
    } else if name == "round"@ {
        Some((seq![ValueType::Vector, ValueType::Scalar], 1i32, ValueType::Vector, false))
    } else if name == "scalar"@ {
        Some((seq![ValueType::Vector], 0i32, ValueType::Scalar, false))
    } else if name == "sgn"@ {
        Some((seq![ValueType::Vector], 0i32, ValueType::Vector, false))
    } else if name == "sin"@ {
        Some((seq![ValueType::Vector], 0i32, ValueType::Vector, false))
    } else if name == "sinh"@ {
        Some((seq![ValueType::Vector], 0i32, ValueType::Vector, false))
    } else if name == "sort"@ {
        Some((seq![ValueType::Vector], 0i32, ValueType::Vector, false))
    } else if name == "sort_desc"@ {
        Some((seq![ValueType::Vector], 0i32, ValueType::Vector, false))
    } else if name == "sort_by_label"@ {
        Some((seq![ValueType::Vector, ValueType::String, ValueType::String], -1i32, ValueType::Vector, true))
    } else if name == "sort_by_label_desc"@ {
        Some((seq![ValueType::Vector, ValueType::String, ValueType::String], -1i32, ValueType::Vector, true))
    } else if name == "sqrt"@ {
        Some((seq![ValueType::Vector], 0i32, ValueType::Vector, false))
    } else if name == "stddev_over_time"@ {
        Some((seq![ValueType::Matrix], 0i32, ValueType::Vector, false))
    } else if name == "stdvar_over_time"@ {
        Some((seq![ValueType::Matrix], 0i32, ValueType::Vector, false))
    } else if name == "sum_over_time"@ {
        Some((seq![ValueType::Matrix], 0i32, ValueType::Vector, false))
    } else if name == "tan"@ {
        Some((seq![ValueType::Vector], 0i32, ValueType::Vector, false))
    } else if name == "tanh"@ {
        Some((seq![ValueType::Vector], 0i32, ValueType::Vector, false))
    } else if name == "time"@ {
        Some((seq![], 0i32, ValueType::Scalar, false))
    } else if name == "timestamp"@ {
        Some((seq![ValueType::Vector], 0i32, ValueType::Vector, false))
    } else if name == "vector"@ {
        Some((seq![ValueType::Scalar], 0i32, ValueType::Vector, false))
    } else if name == "year"@ {
        Some((seq![ValueType::Vector], 1i32, ValueType::Vector, false))
    } else {
        None
    }
}

/// The predefined function named `name`, if there is one.
#[verifier::rlimit(50)]
pub fn get_function(name: &str) -> (r: Option<Function>)
    ensures
        match spec_function(name@) {
            Some((args, variadic, ret, experimental)) => r matches Some(f) && f.name@ == name@
                && f.arg_types@ == args && f.variadic == variadic && f.return_type == ret
                && f.experimental == experimental,
            None => r is None,
        },
{
    if str_eq(name, "abs") {
        return Some(Function::new("abs", vec![ValueType::Vector], 0, ValueType::Vector, false));
    }
    if str_eq(name, "absent") {
        return Some(Function::new("absent", vec![ValueType::Vector], 0, ValueType::Vector, false));
    }
    if str_eq(name, "absent_over_time") {
        return Some(Function::new("absent_over_time", vec![ValueType::Matrix], 0, ValueType::Vector, false));
    }
    if str_eq(name, "acos") {
        return Some(Function::new("acos", vec![ValueType::Vector], 0, ValueType::Vector, false));
    }
    if str_eq(name, "acosh") {
        return Some(Function::new("acosh", vec![ValueType::Vector], 0, ValueType::Vector, false));
    }
    if str_eq(name, "asin") {
        return Some(Function::new("asin", vec![ValueType::Vector], 0, ValueType::Vector, false));
    }
    if str_eq(name, "asinh") {
        return Some(Function::new("asinh", vec![ValueType::Vector], 0, ValueType::Vector, false));
    }
    if str_eq(name, "atan") {
        return Some(Function::new("atan", vec![ValueType::Vector], 0, ValueType::Vector, false));
    }
    if str_eq(name, "atanh") {
        return Some(Function::new("atanh", vec![ValueType::Vector], 0, ValueType::Vector, false));
    }
    if str_eq(name, "avg_over_time") {
        return Some(Function::new("avg_over_time", vec![ValueType::Matrix], 0, ValueType::Vector, false));
    }
    if str_eq(name, "ceil") {
        return Some(Function::new("ceil", vec![ValueType::Vector], 0, ValueType::Vector, false));
    }
    if str_eq(name, "changes") {
        return Some(Function::new("changes", vec![ValueType::Matrix], 0, ValueType::Vector, false));
    }
    if str_eq(name, "clamp") {
        return Some(Function::new("clamp", vec![ValueType::Vector, ValueType::Scalar, ValueType::Scalar], 0, ValueType::Vector, false));
    }
    if str_eq(name, "clamp_max") {
        return Some(Function::new("clamp_max", vec![ValueType::Vector, ValueType::Scalar], 0, ValueType::Vector, false));
    }
    if str_eq(name, "clamp_min") {
        return Some(Function::new("clamp_min", vec![ValueType::Vector, ValueType::Scalar], 0, ValueType::Vector, false));
    }
    if str_eq(name, "cos") {
        return Some(Function::new("cos", vec![ValueType::Vector], 0, ValueType::Vector, false));
    }
    if str_eq(name, "cosh") {
        return Some(Function::new("cosh", vec![ValueType::Vector], 0, ValueType::Vector, false));
    }
    if str_eq(name, "count_over_time") {
        return Some(Function::new("count_over_time", vec![ValueType::Matrix], 0, ValueType::Vector, false));
    }
    if str_eq(name, "days_in_month") {
        return Some(Function::new("days_in_month", vec![ValueType::Vector], 1, ValueType::Vector, false));
    }
    if str_eq(name, "day_of_month") {
        return Some(Function::new("day_of_month", vec![ValueType::Vector], 1, ValueType::Vector, false));
    }
    if str_eq(name, "day_of_week") {
        return Some(Function::new("day_of_week", vec![ValueType::Vector], 1, ValueType::Vector, false));
    }
    if str_eq(name, "day_of_year") {
        return Some(Function::new("day_of_year", vec![ValueType::Vector], 1, ValueType::Vector, false));
    }
    if str_eq(name, "deg") {
        return Some(Function::new("deg", vec![ValueType::Vector], 0, ValueType::Vector, false));
    }
    if str_eq(name, "delta") {
        return Some(Function::new("delta", vec![ValueType::Matrix], 0, ValueType::Vector, false));
    }
    if str_eq(name, "deriv") {
        return Some(Function::new("deriv", vec![ValueType::Matrix], 0, ValueType::Vector, false));
    }
    if str_eq(name, "exp") {
        return Some(Function::new("exp", vec![ValueType::Vector], 0, ValueType::Vector, false));
    }
    if str_eq(name, "floor") {
        return Some(Function::new("floor", vec![ValueType::Vector], 0, ValueType::Vector, false));
    }
    if str_eq(name, "histogram_count") {
        return Some(Function::new("histogram_count", vec![ValueType::Vector], 0, ValueType::Vector, false));
    }
    if str_eq(name, "histogram_sum") {
        return Some(Function::new("histogram_sum", vec![ValueType::Vector], 0, ValueType::Vector, false));
    }
    if str_eq(name, "histogram_avg") {
        return Some(Function::new("histogram_avg", vec![ValueType::Vector], 0, ValueType::Vector, false));
    }
    if str_eq(name, "histogram_fraction") {
        return Some(Function::new("histogram_fraction", vec![ValueType::Scalar, ValueType::Scalar, ValueType::Vector], 0, ValueType::Vector, false));
    }
    if str_eq(name, "histogram_quantile") {
        return Some(Function::new("histogram_quantile", vec![ValueType::Scalar, ValueType::Vector], 0, ValueType::Vector, false));
    }
    if str_eq(name, "histogram_stddev") {
        return Some(Function::new("histogram_stddev", vec![ValueType::Vector], 0, ValueType::Vector, false));
    }
    if str_eq(name, "histogram_stdvar") {
        return Some(Function::new("histogram_stdvar", vec![ValueType::Vector], 0, ValueType::Vector, false));
    }
    if str_eq(name, "double_exponential_smoothing") {
        return Some(Function::new("double_exponential_smoothing", vec![ValueType::Matrix, ValueType::Scalar, ValueType::Scalar], 0, ValueType::Vector, true));
    }
    if str_eq(name, "holt_winters") {
        return Some(Function::new("holt_winters", vec![ValueType::Matrix, ValueType::Scalar, ValueType::Scalar], 0, ValueType::Vector, false));
    }
    if str_eq(name, "hour") {
        return Some(Function::new("hour", vec![ValueType::Vector], 1, ValueType::Vector, false));
    }
    if str_eq(name, "idelta") {
        return Some(Function::new("idelta", vec![ValueType::Matrix], 0, ValueType::Vector, false));
    }
    if str_eq(name, "increase") {
        return Some(Function::new("increase", vec![ValueType::Matrix], 0, ValueType::Vector, false));
    }
    if str_eq(name, "irate") {
        return Some(Function::new("irate", vec![ValueType::Matrix], 0, ValueType::Vector, false));
    }
    if str_eq(name, "label_replace") {
        return Some(Function::new("label_replace", vec![ValueType::Vector, ValueType::String, ValueType::String, ValueType::String, ValueType::String], 0, ValueType::Vector, false));
    }
    if str_eq(name, "label_join") {
        return Some(Function::new("label_join", vec![ValueType::Vector, ValueType::String, ValueType::String, ValueType::String], -1, ValueType::Vector, false));
    }
    if str_eq(name, "last_over_time") {
        return Some(Function::new("last_over_time", vec![ValueType::Matrix], 0, ValueType::Vector, false));
    }
    if str_eq(name, "ln") {
        return Some(Function::new("ln", vec![ValueType::Vector], 0, ValueType::Vector, false));
    }
    if str_eq(name, "log10") {
        return Some(Function::new("log10", vec![ValueType::Vector], 0, ValueType::Vector, false));
    }
    if str_eq(name, "log2") {
        return Some(Function::new("log2", vec![ValueType::Vector], 0, ValueType::Vector, false));
    }
    if str_eq(name, "max_over_time") {
        return Some(Function::new("max_over_time", vec![ValueType::Matrix], 0, ValueType::Vector, false));
    }
    if str_eq(name, "min_over_time") {
        return Some(Function::new("min_over_time", vec![ValueType::Matrix], 0, ValueType::Vector, false));
    }
    if str_eq(name, "minute") {
        return Some(Function::new("minute", vec![ValueType::Vector], 1, ValueType::Vector, false));
    }
    if str_eq(name, "month") {
        return Some(Function::new("month", vec![ValueType::Vector], 1, ValueType::Vector, false));
    }
    if str_eq(name, "pi") {
        return Some(Function::new("pi", vec![], 0, ValueType::Scalar, false));
    }
    if str_eq(name, "predict_linear") {
        return Some(Function::new("predict_linear", vec![ValueType::Matrix, ValueType::Scalar], 0, ValueType::Vector, false));
    }
    if str_eq(name, "present_over_time") {
        return Some(Function::new("present_over_time", vec![ValueType::Matrix], 0, ValueType::Vector, false));
    }
    if str_eq(name, "quantile_over_time") {
        return Some(Function::new("quantile_over_time", vec![ValueType::Scalar, ValueType::Matrix], 0, ValueType::Vector, false));
    }
    if str_eq(name, "rad") {
        return Some(Function::new("rad", vec![ValueType::Vector], 0, ValueType::Vector, false));
    }
    if str_eq(name, "rate") {
        return Some(Function::new("rate", vec![ValueType::Matrix], 0, ValueType::Vector, false));
    }
    if str_eq(name, "resets") {
        return Some(Function::new("resets", vec![ValueType::Matrix], 0, ValueType::Vector, false));
    }
    if str_eq(name, "round") {
        return Some(Function::new("round", vec![ValueType::Vector, ValueType::Scalar], 1, ValueType::Vector, false));
    }
    if str_eq(name, "scalar") {
        return Some(Function::new("scalar", vec![ValueType::Vector], 0, ValueType::Scalar, false));
    }
    if str_eq(name, "sgn") {
        return Some(Function::new("sgn", vec![ValueType::Vector], 0, ValueType::Vector, false));
    }
    if str_eq(name, "sin") {
        return Some(Function::new("sin", vec![ValueType::Vector], 0, ValueType::Vector, false));
    }
    if str_eq(name, "sinh") {
        return Some(Function::new("sinh", vec![ValueType::Vector], 0, ValueType::Vector, false));
    }
    if str_eq(name, "sort") {
        return Some(Function::new("sort", vec![ValueType::Vector], 0, ValueType::Vector, false));
    }
    if str_eq(name, "sort_desc") {
        return Some(Function::new("sort_desc", vec![ValueType::Vector], 0, ValueType::Vector, false));
    }
    if str_eq(name, "sort_by_label") {
        return Some(Function::new("sort_by_label", vec![ValueType::Vector, ValueType::String, ValueType::String], -1, ValueType::Vector, true));
    }
    if str_eq(name, "sort_by_label_desc") {
        return Some(Function::new("sort_by_label_desc", vec![ValueType::Vector, ValueType::String, ValueType::String], -1, ValueType::Vector, true));
    }
    if str_eq(name, "sqrt") {
        return Some(Function::new("sqrt", vec![ValueType::Vector], 0, ValueType::Vector, false));
    }
    if str_eq(name, "stddev_over_time") {
        return Some(Function::new("stddev_over_time", vec![ValueType::Matrix], 0, ValueType::Vector, false));
    }
    if str_eq(name, "stdvar_over_time") {
        return Some(Function::new("stdvar_over_time", vec![ValueType::Matrix], 0, ValueType::Vector, false));
    }
    if str_eq(name, "sum_over_time") {
        return Some(Function::new("sum_over_time", vec![ValueType::Matrix], 0, ValueType::Vector, false));
    }
    if str_eq(name, "tan") {
        return Some(Function::new("tan", vec![ValueType::Vector], 0, ValueType::Vector, false));
    }
    if str_eq(name, "tanh") {
        return Some(Function::new("tanh", vec![ValueType::Vector], 0, ValueType::Vector, false));
    }
    if str_eq(name, "time") {
        return Some(Function::new("time", vec![], 0, ValueType::Scalar, false));
    }
    if str_eq(name, "timestamp") {
        return Some(Function::new("timestamp", vec![ValueType::Vector], 0, ValueType::Vector, false));
    }
    if str_eq(name, "vector") {
        return Some(Function::new("vector", vec![ValueType::Scalar], 0, ValueType::Vector, false));
    }
    if str_eq(name, "year") {
        return Some(Function::new("year", vec![ValueType::Vector], 1, ValueType::Vector, false));
    }
    None
}

/// The range functions that take one range vector: the `*_over_time` functions but
/// `quantile_over_time`, and `changes`, `delta`, `deriv`, `idelta`, `increase`, `irate`,
/// `rate` and `resets`.
pub open spec fn is_range_function(name: Seq<char>) -> bool {
    name == "absent_over_time"@
        || name == "avg_over_time"@
        || name == "changes"@
        || name == "count_over_time"@
        || name == "delta"@
        || name == "deriv"@
        || name == "idelta"@
        || name == "increase"@
        || name == "irate"@
        || name == "last_over_time"@
        || name == "max_over_time"@
        || name == "min_over_time"@
        || name == "present_over_time"@
        || name == "rate"@
        || name == "resets"@
        || name == "stddev_over_time"@
        || name == "stdvar_over_time"@
        || name == "sum_over_time"@
}

/// The signature of a function of one range vector that gives an instant vector.
spec fn one_matrix_signature() -> Option<(Seq<ValueType>, i32, ValueType, bool)> {
    Some((seq![ValueType::Matrix], 0i32, ValueType::Vector, false))
}

/// Every range function takes one argument, a range vector (matrix), and gives an instant
/// vector.
pub proof fn lemma_range_functions_take_a_matrix(name: Seq<char>)
    requires
        is_range_function(name),
    ensures
        spec_function(name) == Some((seq![ValueType::Matrix], 0i32, ValueType::Vector, false)),
{
    if name == "absent_over_time"@ {
        assert(spec_function("absent_over_time"@) == one_matrix_signature()) by {
            lemma_function_names();
            assert("absent_over_time"@.len() == 16 && "abs"@.len() == 3 && "absent"@.len() == 6);
        }
    }
    if name == "avg_over_time"@ {
        assert(spec_function("avg_over_time"@) == one_matrix_signature()) by {
            lemma_function_names();
        }
    }
    if name == "changes"@ {
        assert(spec_function("changes"@) == one_matrix_signature()) by {
            lemma_function_names();
        }
    }
    if name == "count_over_time"@ {
        assert(spec_function("count_over_time"@) == one_matrix_signature()) by {
            lemma_function_names();
        }
    }
    if name == "delta"@ {
        assert(spec_function("delta"@) == one_matrix_signature()) by {
            lemma_function_names();
        }
    }
    if name == "deriv"@ {
        assert(spec_function("deriv"@) == one_matrix_signature()) by {
            lemma_function_names();
        }
    }
    if name == "idelta"@ {
        assert(spec_function("idelta"@) == one_matrix_signature()) by {
            lemma_function_names();
        }
    }
    if name == "increase"@ {
        assert(spec_function("increase"@) == one_matrix_signature()) by {
            lemma_function_names();
        }
    }
    if name == "irate"@ {
        assert(spec_function("irate"@) == one_matrix_signature()) by {
            lemma_function_names();
        }
    }
    if name == "last_over_time"@ {
        assert(spec_function("last_over_time"@) == one_matrix_signature()) by {
            lemma_function_names();
        }
    }
    if name == "max_over_time"@ {
        assert(spec_function("max_over_time"@) == one_matrix_signature()) by {
            lemma_function_names();
        }
    }
    if name == "min_over_time"@ {
        assert(spec_function("min_over_time"@) == one_matrix_signature()) by {
            lemma_function_names();
        }
    }
    if name == "present_over_time"@ {
        assert(spec_function("present_over_time"@) == one_matrix_signature()) by {
            lemma_function_names();
        }
    }
    if name == "rate"@ {
        assert(spec_function("rate"@) == one_matrix_signature()) by {
            lemma_function_names();
        }
    }
    if name == "resets"@ {
        assert(spec_function("resets"@) == one_matrix_signature()) by {
            lemma_function_names();
        }
    }
    if name == "stddev_over_time"@ {
        assert(spec_function("stddev_over_time"@) == one_matrix_signature()) by {
            lemma_function_names();
        }
    }
    if name == "stdvar_over_time"@ {
        assert(spec_function("stdvar_over_time"@) == one_matrix_signature()) by {
            lemma_function_names();
        }
    }
    if name == "sum_over_time"@ {
        assert(spec_function("sum_over_time"@) == one_matrix_signature()) by {
            lemma_function_names();
        }
    }
}

/// The range functions with parameters: `predict_linear` takes a range vector and a
/// scalar, `quantile_over_time` a scalar and a range vector, `holt_winters` and
/// `double_exponential_smoothing` a range vector and two scalars; each takes exactly these
/// and gives an instant vector.
pub proof fn lemma_range_functions_with_parameters()
    ensures
        spec_function("predict_linear"@) matches Some((a, v, r, _)) && a == seq![
            ValueType::Matrix,
            ValueType::Scalar,
        ] && v == 0 && r == ValueType::Vector,
        spec_function("quantile_over_time"@) matches Some((a, v, r, _)) && a == seq![
            ValueType::Scalar,
            ValueType::Matrix,
        ] && v == 0 && r == ValueType::Vector,
        spec_function("holt_winters"@) matches Some((a, v, r, _)) && a == seq![
            ValueType::Matrix,
            ValueType::Scalar,
            ValueType::Scalar,
        ] && v == 0 && r == ValueType::Vector,
        spec_function("double_exponential_smoothing"@) matches Some((a, v, r, _)) && a == seq![
            ValueType::Matrix,
            ValueType::Scalar,
            ValueType::Scalar,
        ] && v == 0 && r == ValueType::Vector,
{
    assert(spec_function("predict_linear"@) == Some((seq![ValueType::Matrix, ValueType::Scalar], 0i32, ValueType::Vector, false))) by {
        lemma_function_names();
    }
    assert(spec_function("quantile_over_time"@) == Some((seq![ValueType::Scalar, ValueType::Matrix], 0i32, ValueType::Vector, false))) by {
        lemma_function_names();
    }
    assert(spec_function("holt_winters"@) == Some((seq![ValueType::Matrix, ValueType::Scalar, ValueType::Scalar], 0i32, ValueType::Vector, false))) by {
        lemma_function_names();
    }
    assert(spec_function("double_exponential_smoothing"@) == Some((seq![ValueType::Matrix, ValueType::Scalar, ValueType::Scalar], 0i32, ValueType::Vector, true))) by {
        lemma_function_names();
    }
}

/// The chars of the names in the function table.
proof fn lemma_function_names()
    ensures
        "abs"@ == seq!['a', 'b', 's'],
        "absent"@ == seq!['a', 'b', 's', 'e', 'n', 't'],
        "absent_over_time"@ == seq!['a', 'b', 's', 'e', 'n', 't', '_', 'o', 'v', 'e', 'r', '_', 't', 'i', 'm', 'e'],
        "acos"@ == seq!['a', 'c', 'o', 's'],
        "acosh"@ == seq!['a', 'c', 'o', 's', 'h'],
        "asin"@ == seq!['a', 's', 'i', 'n'],
        "asinh"@ == seq!['a', 's', 'i', 'n', 'h'],
        "atan"@ == seq!['a', 't', 'a', 'n'],
        "atanh"@ == seq!['a', 't', 'a', 'n', 'h'],
        "avg_over_time"@ == seq!['a', 'v', 'g', '_', 'o', 'v', 'e', 'r', '_', 't', 'i', 'm', 'e'],
        "ceil"@ == seq!['c', 'e', 'i', 'l'],
        "changes"@ == seq!['c', 'h', 'a', 'n', 'g', 'e', 's'],
        "clamp"@ == seq!['c', 'l', 'a', 'm', 'p'],
        "clamp_max"@ == seq!['c', 'l', 'a', 'm', 'p', '_', 'm', 'a', 'x'],
        "clamp_min"@ == seq!['c', 'l', 'a', 'm', 'p', '_', 'm', 'i', 'n'],
        "cos"@ == seq!['c', 'o', 's'],
        "cosh"@ == seq!['c', 'o', 's', 'h'],
        "count_over_time"@ == seq!['c', 'o', 'u', 'n', 't', '_', 'o', 'v', 'e', 'r', '_', 't', 'i', 'm', 'e'],
        "days_in_month"@ == seq!['d', 'a', 'y', 's', '_', 'i', 'n', '_', 'm', 'o', 'n', 't', 'h'],
        "day_of_month"@ == seq!['d', 'a', 'y', '_', 'o', 'f', '_', 'm', 'o', 'n', 't', 'h'],
        "day_of_week"@ == seq!['d', 'a', 'y', '_', 'o', 'f', '_', 'w', 'e', 'e', 'k'],
        "day_of_year"@ == seq!['d', 'a', 'y', '_', 'o', 'f', '_', 'y', 'e', 'a', 'r'],
        "deg"@ == seq!['d', 'e', 'g'],
        "delta"@ == seq!['d', 'e', 'l', 't', 'a'],
        "deriv"@ == seq!['d', 'e', 'r', 'i', 'v'],
        "exp"@ == seq!['e', 'x', 'p'],
        "floor"@ == seq!['f', 'l', 'o', 'o', 'r'],
        "histogram_count"@ == seq!['h', 'i', 's', 't', 'o', 'g', 'r', 'a', 'm', '_', 'c', 'o', 'u', 'n', 't'],
        "histogram_sum"@ == seq!['h', 'i', 's', 't', 'o', 'g', 'r', 'a', 'm', '_', 's', 'u', 'm'],
        "histogram_avg"@ == seq!['h', 'i', 's', 't', 'o', 'g', 'r', 'a', 'm', '_', 'a', 'v', 'g'],
        "histogram_fraction"@ == seq!['h', 'i', 's', 't', 'o', 'g', 'r', 'a', 'm', '_', 'f', 'r', 'a', 'c', 't', 'i', 'o', 'n'],
        "histogram_quantile"@ == seq!['h', 'i', 's', 't', 'o', 'g', 'r', 'a', 'm', '_', 'q', 'u', 'a', 'n', 't', 'i', 'l', 'e'],
        "histogram_stddev"@ == seq!['h', 'i', 's', 't', 'o', 'g', 'r', 'a', 'm', '_', 's', 't', 'd', 'd', 'e', 'v'],
        "histogram_stdvar"@ == seq!['h', 'i', 's', 't', 'o', 'g', 'r', 'a', 'm', '_', 's', 't', 'd', 'v', 'a', 'r'],
        "double_exponential_smoothing"@ == seq!['d', 'o', 'u', 'b', 'l', 'e', '_', 'e', 'x', 'p', 'o', 'n', 'e', 'n', 't', 'i', 'a', 'l', '_', 's', 'm', 'o', 'o', 't', 'h', 'i', 'n', 'g'],
        "holt_winters"@ == seq!['h', 'o', 'l', 't', '_', 'w', 'i', 'n', 't', 'e', 'r', 's'],
        "hour"@ == seq!['h', 'o', 'u', 'r'],
        "idelta"@ == seq!['i', 'd', 'e', 'l', 't', 'a'],
        "increase"@ == seq!['i', 'n', 'c', 'r', 'e', 'a', 's', 'e'],
        "irate"@ == seq!['i', 'r', 'a', 't', 'e'],
        "label_replace"@ == seq!['l', 'a', 'b', 'e', 'l', '_', 'r', 'e', 'p', 'l', 'a', 'c', 'e'],
        "label_join"@ == seq!['l', 'a', 'b', 'e', 'l', '_', 'j', 'o', 'i', 'n'],
        "last_over_time"@ == seq!['l', 'a', 's', 't', '_', 'o', 'v', 'e', 'r', '_', 't', 'i', 'm', 'e'],
        "ln"@ == seq!['l', 'n'],
        "log10"@ == seq!['l', 'o', 'g', '1', '0'],
        "log2"@ == seq!['l', 'o', 'g', '2'],
        "max_over_time"@ == seq!['m', 'a', 'x', '_', 'o', 'v', 'e', 'r', '_', 't', 'i', 'm', 'e'],
        "min_over_time"@ == seq!['m', 'i', 'n', '_', 'o', 'v', 'e', 'r', '_', 't', 'i', 'm', 'e'],
        "minute"@ == seq!['m', 'i', 'n', 'u', 't', 'e'],
        "month"@ == seq!['m', 'o', 'n', 't', 'h'],
        "pi"@ == seq!['p', 'i'],
        "predict_linear"@ == seq!['p', 'r', 'e', 'd', 'i', 'c', 't', '_', 'l', 'i', 'n', 'e', 'a', 'r'],
        "present_over_time"@ == seq!['p', 'r', 'e', 's', 'e', 'n', 't', '_', 'o', 'v', 'e', 'r', '_', 't', 'i', 'm', 'e'],
        "quantile_over_time"@ == seq!['q', 'u', 'a', 'n', 't', 'i', 'l', 'e', '_', 'o', 'v', 'e', 'r', '_', 't', 'i', 'm', 'e'],
        "rad"@ == seq!['r', 'a', 'd'],
        "rate"@ == seq!['r', 'a', 't', 'e'],
        "resets"@ == seq!['r', 'e', 's', 'e', 't', 's'],
        "round"@ == seq!['r', 'o', 'u', 'n', 'd'],
        "scalar"@ == seq!['s', 'c', 'a', 'l', 'a', 'r'],
        "sgn"@ == seq!['s', 'g', 'n'],
        "sin"@ == seq!['s', 'i', 'n'],
        "sinh"@ == seq!['s', 'i', 'n', 'h'],
        "sort"@ == seq!['s', 'o', 'r', 't'],
        "sort_desc"@ == seq!['s', 'o', 'r', 't', '_', 'd', 'e', 's', 'c'],
        "sort_by_label"@ == seq!['s', 'o', 'r', 't', '_', 'b', 'y', '_', 'l', 'a', 'b', 'e', 'l'],
        "sort_by_label_desc"@ == seq!['s', 'o', 'r', 't', '_', 'b', 'y', '_', 'l', 'a', 'b', 'e', 'l', '_', 'd', 'e', 's', 'c'],
        "sqrt"@ == seq!['s', 'q', 'r', 't'],
        "stddev_over_time"@ == seq!['s', 't', 'd', 'd', 'e', 'v', '_', 'o', 'v', 'e', 'r', '_', 't', 'i', 'm', 'e'],
        "stdvar_over_time"@ == seq!['s', 't', 'd', 'v', 'a', 'r', '_', 'o', 'v', 'e', 'r', '_', 't', 'i', 'm', 'e'],
        "sum_over_time"@ == seq!['s', 'u', 'm', '_', 'o', 'v', 'e', 'r', '_', 't', 'i', 'm', 'e'],
        "tan"@ == seq!['t', 'a', 'n'],
        "tanh"@ == seq!['t', 'a', 'n', 'h'],
        "time"@ == seq!['t', 'i', 'm', 'e'],
        "timestamp"@ == seq!['t', 'i', 'm', 'e', 's', 't', 'a', 'm', 'p'],
        "vector"@ == seq!['v', 'e', 'c', 't', 'o', 'r'],
        "year"@ == seq!['y', 'e', 'a', 'r'],
{
    reveal_strlit("abs");
    reveal_strlit("absent");
    reveal_strlit("absent_over_time");
    reveal_strlit("acos");
    reveal_strlit("acosh");
    reveal_strlit("asin");
    reveal_strlit("asinh");
    reveal_strlit("atan");
    reveal_strlit("atanh");
    reveal_strlit("avg_over_time");
    reveal_strlit("ceil");
    reveal_strlit("changes");
    reveal_strlit("clamp");
    reveal_strlit("clamp_max");
    reveal_strlit("clamp_min");
    reveal_strlit("cos");
    reveal_strlit("cosh");
    reveal_strlit("count_over_time");
    reveal_strlit("days_in_month");
    reveal_strlit("day_of_month");
    reveal_strlit("day_of_week");
    reveal_strlit("day_of_year");
    reveal_strlit("deg");
    reveal_strlit("delta");
    reveal_strlit("deriv");
    reveal_strlit("exp");
    reveal_strlit("floor");
    reveal_strlit("histogram_count");
    reveal_strlit("histogram_sum");
    reveal_strlit("histogram_avg");
    reveal_strlit("histogram_fraction");
    reveal_strlit("histogram_quantile");
    reveal_strlit("histogram_stddev");
    reveal_strlit("histogram_stdvar");
    reveal_strlit("double_exponential_smoothing");
    reveal_strlit("holt_winters");
    reveal_strlit("hour");
    reveal_strlit("idelta");
    reveal_strlit("increase");
    reveal_strlit("irate");
    reveal_strlit("label_replace");
    reveal_strlit("label_join");
    reveal_strlit("last_over_time");
    reveal_strlit("ln");
    reveal_strlit("log10");
    reveal_strlit("log2");
    reveal_strlit("max_over_time");
    reveal_strlit("min_over_time");
    reveal_strlit("minute");
    reveal_strlit("month");
    reveal_strlit("pi");
    reveal_strlit("predict_linear");
    reveal_strlit("present_over_time");
    reveal_strlit("quantile_over_time");
    reveal_strlit("rad");
    reveal_strlit("rate");
    reveal_strlit("resets");
    reveal_strlit("round");
    reveal_strlit("scalar");
    reveal_strlit("sgn");
    reveal_strlit("sin");
    reveal_strlit("sinh");
    reveal_strlit("sort");
    reveal_strlit("sort_desc");
    reveal_strlit("sort_by_label");
    reveal_strlit("sort_by_label_desc");
    reveal_strlit("sqrt");
    reveal_strlit("stddev_over_time");
    reveal_strlit("stdvar_over_time");
    reveal_strlit("sum_over_time");
    reveal_strlit("tan");
    reveal_strlit("tanh");
    reveal_strlit("time");
    reveal_strlit("timestamp");
    reveal_strlit("vector");
    reveal_strlit("year");
}

} // verus!
