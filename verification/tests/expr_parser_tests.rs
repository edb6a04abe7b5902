use substreams::expr_parser::{expr_matcher, matches_keys_in_parsed_expr, ExprMatcher};
use substreams::parser::evaluate_expression;

const TEST_KEYS: &[&str] = &[
    "test",
    "test1",
    "test2",
    "test3",
    "test4",
    "test5",
    "test 6",
    "test.7",
    "test:8",
    "test_9",
    "test*19z_|",
    "type:wasm-MarketUpdated",
];

fn check(input: &str, expected: bool) {
    let result = matches_keys_in_parsed_expr(TEST_KEYS, input);
    match result {
        Ok(found) => assert_eq!(found, expected, "expression {input}"),
        Err(err) => panic!("{} does not parse", err.input),
    }
}

#[test]
fn it_expr_matcher_matches_keys() {
    assert_eq!(expr_matcher("test").matches_keys(TEST_KEYS), true);
}

#[test]
fn test_matches_keys_in_parsed_expr() {
    check("test", true);
    check("'test'", true);
    check("'test 6' || test7", true);
    check("'test_6' && test3", false);
    check("\"test 6\"|| test7", true);
    check("\"test 6\" && test3", true);
    check("test.7", true);
    check("type:wasm-MarketUpdated", true);
    check("type:was-mMarketUpdated", false);
    check("test.8", false);
    check("test:8", true);
    check("test*19z_|", true);
    check("test:9", false);
    check("test_9", true);
    check("test_10", false);
    check("test10 ||test.7", true);
    check("test10 && test:8", false);
    check("(test10 && test_9) || (test.7 && test:8)", true);
    check("(test10 && test_9) || (test.7 && test*19z_|)", true);
    check("(test10 && test_9) || test*19z || (test.7 && test*19z_|)", true);
    check("(test10 && test_9) || test*19z && (test.7 && test*19z_|)", false);
    check("test1 || test", true);
    check("test1 || test6", true);
    check("test6 || test7", false);
    check("test1 || test || test2", true);
    check("test1 || test6 || test7", true);
    check("test6 || test7 || test8", false);
    check("test1 && test", true);
    check("test1 && test6", false);
    check("test6 && test7", false);
    check("test1 && test && test2", true);
    check("test1&& test2 &&test7", false);
    check("test6 &&test7 && test8", false);
    check("test1 test", true);
    check("test1 test6", false);
    check("test6 test7", false);
    check("(test1)", true);
    check("(test1 test6)", false);
    check("test1     test2 ", true);
    check("test1    && test2 ", true);
    check("test1    &&     test6", false);
    check("(test1   ||  test3)       &&  test6 ", false);
    check("(test1  ||     test6 || test7  )     && (test4 || test5) && test3 ", true);
    check("(test1 || test6 || test7) && (test4 || test5) && test3 ", true);
    check("(test1 && test6 && test7) || (test4 && test5) || test3 ", true);
}

#[test]
fn test_parsing_error() {
    for (input, fails) in [
        ("-test", true),
        ("'-test'", true),
        ("'test-8'", false),
        ("test-8", false),
        ("'te't'", true),
        ("\"te\"st\"", true),
    ] {
        assert_eq!(ExprMatcher::new(input).is_err(), fails, "input {input}");
    }
}

#[test]
fn malformed_expressions_fail_to_parse() {
    for input in ["", "   ", "'abc", "\"abc", "a &&", "&& a", "a || ", "|| a", "(a", "a)", "()", "a & b", "''", "a(b)"] {
        match ExprMatcher::new(input) {
            Ok(_) => panic!("{input} parsed"),
            Err(err) => assert_eq!(err.input, input),
        }
    }
}

#[test]
fn and_binds_tighter_than_or() {
    let keys: &[&str] = &["a"];
    assert_eq!(matches_keys_in_parsed_expr(keys, "a || b && c").unwrap(), true);
    assert_eq!(matches_keys_in_parsed_expr(keys, "(a || b) && c").unwrap(), false);
    assert_eq!(matches_keys_in_parsed_expr(keys, "b && c || a").unwrap(), true);
    assert_eq!(matches_keys_in_parsed_expr(keys, "a||b").unwrap(), true);
    assert_eq!(matches_keys_in_parsed_expr(keys, "a&&b").unwrap(), false);
}

#[test]
fn implicit_and_needs_both_keys() {
    let both: &[&str] = &["test1", "test2"];
    let one: &[&str] = &["test1"];
    let matcher = ExprMatcher::new("test1 test2").unwrap();
    assert!(matcher.matches_keys(both));
    assert!(!matcher.matches_keys(one));
}

#[test]
fn quoted_literals_are_taken_verbatim() {
    let keys: &[&str] = &["a && b", "it's", "say \"hi\""];
    assert!(matches_keys_in_parsed_expr(keys, "'a && b'").unwrap());
    assert!(matches_keys_in_parsed_expr(keys, "\"it's\"").unwrap());
    assert!(matches_keys_in_parsed_expr(keys, "'say \"hi\"'").unwrap());
    assert!(!matches_keys_in_parsed_expr(keys, "' a && b'").unwrap());
}

#[test]
fn test_parse() {
    let keys = || -> Vec<String> {
        ["test", "test1", "test2", "test3", "test4", "test5", "test 6"]
            .iter()
            .map(|s| s.to_string())
            .collect()
    };
    for (input, expected) in [
        ("test", true),
        ("'test'", true),
        ("'test 6' || test7", true),
        ("'test_6' && test3", false),
        ("\"test 6\" || test7", true),
        ("\"test 6\" && test3", true),
        ("test1 || test", true),
        ("test1 || test6", true),
        ("test6 || test7", false),
        ("test1 || test || test2", true),
        ("test1 || test6 || test7", true),
        ("test6 || test7 || test8", false),
        ("test1 && test", true),
        ("test1 && test6", false),
        ("test6 && test7", false),
        ("test1 && test && test2", true),
        ("test1 && test2 && test7", false),
        ("test6 && test7 && test8", false),
        ("test1 test", true),
        ("test1 test6", false),
        ("test6 test7", false),
        ("(test1)", true),
        ("(test1 test6)", false),
        ("test1     test2 ", true),
        ("test1    && test2 ", true),
        ("test1    &&     test6", false),
        ("(test1   ||  test3)       &&  test6 ", false),
        ("(test1  ||     test6 || test7  )     && (test4 || test5) && test3 ", true),
        ("(test1 || test6 || test7) && (test4 || test5) && test3 ", true),
        ("(test1 && test6 && test7) || (test4 && test5) || test3 ", true),
    ] {
        assert_eq!(evaluate_expression(keys(), input), expected, "expression {input}");
    }
}

#[test]
fn two_bare_words_side_by_side_are_a_conjunction() {
    let words = ["a", "foo", "a-b", "x:y", "1", "#", "type:transfer", "é"];
    for a in words {
        for b in words {
            for keys in [vec![], vec![a], vec![b], vec![a, b], vec!["other", b, a]] {
                let expected = keys.contains(&a) && keys.contains(&b);
                let side_by_side = format!("{} {}", a, b);
                let with_operator = format!("{} && {}", a, b);
                assert_eq!(matches_keys_in_parsed_expr(&keys, &side_by_side).unwrap(), expected);
                assert_eq!(matches_keys_in_parsed_expr(&keys, &with_operator).unwrap(), expected);
            }
        }
    }
    assert!(matches_keys_in_parsed_expr(&["-x", "y"], "-x y").is_err());
    assert!(matches_keys_in_parsed_expr(&["x", "-y"], "x -y").is_err());
}
