use rustlab::dataset::Value;
use rustlab::query::{Aggregation, Condition};
use rustlab::query_parser::{parse_query_from_string, try_parse_query_from_string};

fn equal(c: &Condition) -> (String, String) {
    match c {
        Condition::Equal(col, Value::String(v)) => (col.clone(), v.clone()),
        other => panic!("not a text comparison: {:?}", other),
    }
}

fn pair(a: &str, b: &str) -> (String, String) {
    (String::from(a), String::from(b))
}

#[test]
fn parses_single_comparison_with_count() {
    let q = parse_query_from_string(String::from("FILTER name == \"Bob\" GROUP BY city COUNT id"));
    assert_eq!(equal(q.get_filter()), pair("name", "Bob"));
    assert_eq!(q.get_group_by(), "city");
    assert!(matches!(q.get_aggregate(), Aggregation::Count(c) if c == "id"));
}

#[test]
fn parses_and_with_negation_and_parentheses() {
    let q = parse_query_from_string(String::from("FILTER (a == \"1\") AND !(b == \"2\") GROUP BY c SUM d"));
    match q.get_filter() {
        Condition::And(l, r) => {
            assert_eq!(equal(l), pair("a", "1"));
            match &**r {
                Condition::Not(inner) => assert_eq!(equal(inner), pair("b", "2")),
                other => panic!("expected a negation: {:?}", other),
            }
        }
        other => panic!("expected AND: {:?}", other),
    }
    assert_eq!(q.get_group_by(), "c");
    assert!(matches!(q.get_aggregate(), Aggregation::Sum(c) if c == "d"));
}

#[test]
fn parses_or_with_average() {
    let q = parse_query_from_string(String::from("FILTER x == \"y\" OR z == \"w\" GROUP BY g AVERAGE v"));
    match q.get_filter() {
        Condition::Or(l, r) => {
            assert_eq!(equal(l), pair("x", "y"));
            assert_eq!(equal(r), pair("z", "w"));
        }
        other => panic!("expected OR: {:?}", other),
    }
    assert_eq!(q.get_group_by(), "g");
    assert!(matches!(q.get_aggregate(), Aggregation::Average(c) if c == "v"));
}

#[test]
fn negated_single_comparison() {
    let q = parse_query_from_string(String::from("FILTER !class == \"Math\" GROUP BY year COUNT name"));
    match q.get_filter() {
        Condition::Not(inner) => assert_eq!(equal(inner), pair("class", "Math")),
        other => panic!("expected a negation: {:?}", other),
    }
}

#[test]
fn extra_whitespace_is_ignored() {
    let q = parse_query_from_string(String::from("  FILTER\tname ==  \"Bob\"\n GROUP  BY   city   COUNT id  "));
    assert_eq!(equal(q.get_filter()), pair("name", "Bob"));
    assert_eq!(q.get_group_by(), "city");
    assert!(matches!(q.get_aggregate(), Aggregation::Count(c) if c == "id"));
}

#[test]
fn unicode_whitespace_separates_words() {
    let q = parse_query_from_string(String::from("FILTER\u{3000}a\u{00A0}==\u{2003}\"é\" GROUP BY b SUM c"));
    assert_eq!(equal(q.get_filter()), pair("a", "é"));
    assert_eq!(q.get_group_by(), "b");
}

#[test]
fn only_first_and_last_words_of_a_comparison_count() {
    let q = parse_query_from_string(String::from("FILTER name is not \"Ann\" GROUP BY city COUNT name"));
    assert_eq!(equal(q.get_filter()), pair("name", "Ann"));
}

#[test]
fn last_filter_before_group_starts_the_condition() {
    let q = parse_query_from_string(String::from("FILTER junk FILTER k == \"v\" GROUP BY g COUNT g"));
    assert_eq!(equal(q.get_filter()), pair("k", "v"));
}

#[test]
fn quotes_inside_value_are_kept_and_outer_ones_dropped() {
    let q = parse_query_from_string(String::from("FILTER ((col == \"\"a\"b\"\")) GROUP BY g COUNT g"));
    assert_eq!(equal(q.get_filter()), pair("col", "a\"b"));
}

#[test]
fn checked_parse_accepts_what_parse_accepts() {
    let q = try_parse_query_from_string(String::from("FILTER name == \"Bob\" GROUP BY city COUNT id")).unwrap();
    assert_eq!(equal(q.get_filter()), pair("name", "Bob"));
    assert_eq!(q.get_group_by(), "city");
}

#[test]
fn checked_parse_rejects_malformed_queries() {
    for text in [
        "",
        "FILTER a == \"b\" COUNT id",
        "FILTER a == \"b\" GROUP BY",
        "FILTER GROUP BY c COUNT d",
        "FILTER AND b == \"c\" GROUP BY g COUNT g",
        "FILTER a == \"b\" AND GROUP BY g COUNT g",
        "FILTER a == \"b\" GROUP BY g MAX g",
        "GROUP FILTER a == \"b\" GROUP BY g COUNT g",
    ] {
        assert!(try_parse_query_from_string(String::from(text)).is_none(), "{text}");
    }
}

#[test]
fn checked_parse_without_filter_keyword_uses_words_before_group() {
    let q = try_parse_query_from_string(String::from("a == \"b\" GROUP BY g COUNT g")).unwrap();
    assert_eq!(equal(q.get_filter()), pair("a", "b"));
}
