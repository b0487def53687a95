//! A skeleton of a label matcher in the parser's own terms; the matchers in use are those
//! of `label::matcher`.
use vstd::prelude::*;

verus! {

/// The matching of a label.
#[derive(Debug)]
pub struct Matcher {
    mtype: i32,
    name: String,
    value: String,
}

} // verus!
