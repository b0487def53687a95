use promql_parser::label::Labels;
use std::collections::HashSet;


#[test]
fn test_to_string() {
    let cases = vec![
        (vec![], ""),
        (vec!["foo"], "foo"),
        (vec!["foo", "bar"], "foo, bar"),
        (vec!["foo", "foo", "bar"], "foo, foo, bar"),
    ];

    for (ls, expect) in cases {
        let lb = Labels::new(ls);
        assert_eq!(expect, lb.to_string())
    }
}

#[test]
fn test_is_joint() {
    let cases = vec![
        (vec!["foo"], vec!["bar"], false),
        (vec!["foo"], vec!["foo", "bar"], true),
        (vec!["foo"], vec!["foo"], true),
    ];

    for (lb1, lb2, is) in cases {
        let lb1 = Labels::new(lb1);
        let lb2 = Labels::new(lb2);
        assert_eq!(is, lb1.is_joint(&lb2), "{:?} and {:?}", lb1, lb2)
    }
}

#[test]
fn test_intersect() {
    let cases = vec![
        (vec!["foo"], vec!["bar"], vec![]),
        (vec!["foo"], vec!["foo", "bar"], vec!["foo"]),
        (vec!["foo"], vec!["foo"], vec!["foo"]),
        (vec!["foo", "bar"], vec!["bar", "foo"], vec!["foo", "bar"]),
    ];

    for (lb1, lb2, common) in cases {
        let lb1 = Labels::new(lb1);
        let lb2 = Labels::new(lb2);
        let intersection: HashSet<_> = lb1.intersect(&lb2).labels.into_iter().collect();
        let expect: HashSet<_> = common.iter().map(|s| s.to_string()).collect();
        assert_eq!(expect, intersection)
    }
}
