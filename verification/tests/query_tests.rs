use outpack::query::query_types::{Literal, Lookup, Operator, QueryNode, Test, TestValue};
use outpack::query::{parse_query, render};

fn lookup(l: Lookup) -> TestValue {
    TestValue::Lookup(l)
}

fn literal(l: Literal) -> TestValue {
    TestValue::Literal(l)
}

#[test]
fn can_parse_a_test() {
    let q = parse_query("name == 'foo'").unwrap();
    assert_eq!(
        q,
        QueryNode::Test(
            Test::Equal,
            lookup(Lookup::Name),
            literal(Literal::Text("foo".to_string()))
        )
    );
}

#[test]
fn can_parse_latest() {
    assert_eq!(parse_query("latest").unwrap(), QueryNode::Latest(None));
    assert_eq!(parse_query("latest()").unwrap(), QueryNode::Latest(None));
    let q = parse_query("latest(id == '20170818-164830-33e0ab01')").unwrap();
    match q {
        QueryNode::Latest(Some(inner)) => match *inner {
            QueryNode::Test(Test::Equal, _, _) => {}
            other => panic!("unexpected inner node: {:?}", other),
        },
        other => panic!("unexpected node: {:?}", other),
    }
}

#[test]
fn can_parse_boolean_operators_left_associated() {
    let q = parse_query("name == 'a' || name == 'b' && id == 'c'").unwrap();
    // && binds tighter than ||.
    match q {
        QueryNode::BooleanOp(Operator::Or, lhs, rhs) => {
            assert!(matches!(*lhs, QueryNode::Test(..)));
            assert!(matches!(*rhs, QueryNode::BooleanOp(Operator::And, _, _)));
        }
        other => panic!("unexpected node: {:?}", other),
    }
}

#[test]
fn can_parse_negation_and_brackets() {
    let q = parse_query("!(name == 'a')").unwrap();
    match q {
        QueryNode::Negation(inner) => assert!(matches!(*inner, QueryNode::Brackets(_))),
        other => panic!("unexpected node: {:?}", other),
    }
}

#[test]
fn can_parse_single() {
    let q = parse_query("single(parameter:x > 2)").unwrap();
    match q {
        QueryNode::Single(inner) => match *inner {
            QueryNode::Test(Test::GreaterThan, ref lhs, ref rhs) => {
                assert_eq!(*lhs, lookup(Lookup::Parameter("x".to_string())));
                assert_eq!(*rhs, literal(Literal::Number("2".to_string())));
            }
            other => panic!("unexpected inner node: {:?}", other),
        },
        other => panic!("unexpected node: {:?}", other),
    }
}

#[test]
fn can_parse_lookups_and_literals() {
    let q = parse_query("this:alpha != environment:beta").unwrap();
    assert_eq!(
        q,
        QueryNode::Test(
            Test::NotEqual,
            lookup(Lookup::This("alpha".to_string())),
            lookup(Lookup::Environment("beta".to_string()))
        )
    );
    let q = parse_query("parameter:flag == true").unwrap();
    assert_eq!(
        q,
        QueryNode::Test(
            Test::Equal,
            lookup(Lookup::Parameter("flag".to_string())),
            literal(Literal::Bool(true))
        )
    );
    let q = parse_query("parameter:n <= -1.25").unwrap();
    assert_eq!(
        q,
        QueryNode::Test(
            Test::LessThanOrEqual,
            lookup(Lookup::Parameter("n".to_string())),
            literal(Literal::Number("-1.25".to_string()))
        )
    );
}

#[test]
fn parse_reports_offset_and_reason() {
    let e = parse_query("name ==").unwrap_err();
    assert_eq!(e.reason, "expected value");
    assert_eq!(e.offset, 7);

    let e = parse_query("name == 'a' nonsense").unwrap_err();
    assert_eq!(e.reason, "unexpected trailing characters");
    assert_eq!(e.offset, 12);

    let e = parse_query("single(name == 'a'").unwrap_err();
    assert_eq!(e.reason, "expected ')'");

    let e = parse_query("name == 'unterminated").unwrap_err();
    assert_eq!(e.reason, "unterminated string");
}

#[test]
fn render_writes_queries_back() {
    let q = QueryNode::Test(
        Test::Equal,
        lookup(Lookup::Name),
        literal(Literal::Text("foo".to_string())),
    );
    assert_eq!(render(&q), "name == \"foo\"");

    let q = QueryNode::Latest(Some(Box::new(QueryNode::Test(
        Test::GreaterThanOrEqual,
        lookup(Lookup::Parameter("x".to_string())),
        literal(Literal::Number("2.5".to_string())),
    ))));
    assert_eq!(render(&q), "latest(parameter:x >= 2.5)");
}

#[test]
fn parse_render_round_trip() {
    let cases = vec![
        QueryNode::Latest(None),
        QueryNode::Test(
            Test::Equal,
            lookup(Lookup::Name),
            literal(Literal::Text("fo\"o\\bar".to_string())),
        ),
        QueryNode::Single(Box::new(QueryNode::Test(
            Test::LessThan,
            lookup(Lookup::Parameter("p".to_string())),
            literal(Literal::Number("-3.5".to_string())),
        ))),
        QueryNode::Negation(Box::new(QueryNode::Brackets(Box::new(QueryNode::Test(
            Test::NotEqual,
            lookup(Lookup::Id),
            literal(Literal::Bool(false)),
        ))))),
        QueryNode::BooleanOp(
            Operator::Or,
            Box::new(QueryNode::BooleanOp(
                Operator::And,
                Box::new(QueryNode::Test(
                    Test::Equal,
                    lookup(Lookup::Name),
                    literal(Literal::Text("a".to_string())),
                )),
                Box::new(QueryNode::Test(
                    Test::Equal,
                    lookup(Lookup::This("x".to_string())),
                    literal(Literal::Number("1".to_string())),
                )),
            )),
            Box::new(QueryNode::Test(
                Test::Equal,
                lookup(Lookup::Environment("e".to_string())),
                literal(Literal::Bool(true)),
            )),
        ),
        QueryNode::Latest(Some(Box::new(QueryNode::Brackets(Box::new(QueryNode::Test(
            Test::GreaterThan,
            lookup(Lookup::Id),
            literal(Literal::Text("z".to_string())),
        )))))),
    ];
    for ast in cases {
        let text = render(&ast);
        let reparsed = parse_query(&text).unwrap();
        assert_eq!(reparsed, ast, "round trip failed for {}", text);
    }
}

#[test]
fn keyword_test_round_trips() {
    let cases = vec![
        QueryNode::Test(Test::Equal, lookup(Lookup::Name), literal(Literal::Bool(true))),
        QueryNode::Test(Test::NotEqual, lookup(Lookup::Id), literal(Literal::Bool(false))),
        QueryNode::Test(Test::LessThan, literal(Literal::Bool(false)), lookup(Lookup::Id)),
        QueryNode::Test(
            Test::GreaterThanOrEqual,
            lookup(Lookup::Id),
            lookup(Lookup::Name),
        ),
        QueryNode::Latest(Some(Box::new(QueryNode::Negation(Box::new(QueryNode::Brackets(
            Box::new(QueryNode::Test(
                Test::Equal,
                lookup(Lookup::Name),
                literal(Literal::Bool(true)),
            )),
        )))))),
        QueryNode::Single(Box::new(QueryNode::Latest(Some(Box::new(QueryNode::Test(
            Test::LessThanOrEqual,
            lookup(Lookup::Id),
            lookup(Lookup::Id),
        )))))),
    ];
    for ast in cases {
        let text = render(&ast);
        assert_eq!(parse_query(&text).unwrap(), ast, "round trip failed for {}", text);
    }
}
