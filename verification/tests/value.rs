use promql_parser::parser::value::ValueType;


#[test]
fn test_value_type() {
    assert_eq!(ValueType::Scalar.to_string(), "scalar");
    assert_eq!(ValueType::String.to_string(), "string");
    assert_eq!(ValueType::Vector.to_string(), "vector");
    assert_eq!(ValueType::Matrix.to_string(), "matrix");
}
