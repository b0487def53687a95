use promql_parser::label::label::{Label, Labels};

#[test]
fn test_match_labels() {
    let rust = Label {
        name: "Rust".into(),
        value: "rust".into(),
    };
    let go = Label {
        name: "go".into(),
        value: "go".into(),
    };
    let clojure = Label {
        name: "Clojure".into(),
        value: "Clojure".into(),
    };
    let labels = Labels::new(vec![rust.clone(), go.clone(), clojure.clone()]);

    let matched_labels = labels.match_labels(true, vec!["go".into()]);
    assert_eq!(1, matched_labels.len());
    assert_eq!(go, matched_labels[0]);

    let matched_labels = labels.match_labels(false, vec!["go".into()]);
    assert_eq!(2, matched_labels.len());
}
