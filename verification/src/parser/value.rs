//! The types of the values that expressions evaluate to.
use vstd::prelude::*;

use crate::util::text::str_to_string;

verus! {

#[derive(Debug, Clone, Copy, PartialEq, Eq, Structural)]
pub enum ValueType {
    Vector,
    Scalar,
    Matrix,
    String,
}

/// The name of a value type, as PromQL writes it.
pub open spec fn value_type_name(t: ValueType) -> Seq<char> {
    match t {
        ValueType::Scalar => "scalar"@,
        ValueType::String => "string"@,
        ValueType::Vector => "vector"@,
        ValueType::Matrix => "matrix"@,
    }
}

impl ValueType {
    /// The name of the value type: `scalar`, `string`, `vector` or `matrix`.
    pub fn to_string(&self) -> (s: String)
        ensures
            s@ == value_type_name(*self),
    {
        match *self {
            ValueType::Scalar => str_to_string("scalar"),
            ValueType::String => str_to_string("string"),
            ValueType::Vector => str_to_string("vector"),
            ValueType::Matrix => str_to_string("matrix"),
        }
    }
}

/// Something that has a value type.
pub trait Value {
    fn vtype(&self) -> ValueType;
}

} // verus!
