use rustlab::analytics::{
    aggregate_dataset, compute_query_on_dataset, condition_check, filter_dataset, group_by_dataset,
};
use rustlab::dataset::{ColumnType, Dataset, Row, Value};
use rustlab::query::{Aggregation, Condition, Query};

fn text(x: &str) -> Value {
    Value::String(String::from(x))
}

fn people() -> Dataset {
    let mut d = Dataset::new(vec![
        (String::from("name"), ColumnType::String),
        (String::from("city"), ColumnType::String),
        (String::from("age"), ColumnType::Integer),
    ]);
    for (n, c, a) in [("Ann", "Boston", 30), ("Bob", "NYC", 25), ("Cid", "Boston", 40), ("Dan", "NYC", 35), ("Eve", "LA", 20)] {
        d.add_row(Row::new(vec![text(n), text(c), Value::Integer(a)]));
    }
    d
}

fn eq(col: &str, v: Value) -> Condition {
    Condition::Equal(String::from(col), v)
}

fn names(d: &Dataset) -> Vec<Value> {
    (0..d.len()).map(|i| d.row(i).get_value(0).clone()).collect()
}

#[test]
fn condition_equal_not_and_or() {
    let d = people();
    let ann = d.row(0);
    assert!(condition_check(ann, &eq("city", text("Boston")), &d));
    assert!(!condition_check(ann, &eq("city", text("NYC")), &d));
    assert!(condition_check(ann, &eq("age", Value::Integer(30)), &d));
    assert!(!condition_check(ann, &eq("age", text("30")), &d));
    assert!(!condition_check(ann, &Condition::Not(Box::new(eq("name", text("Ann")))), &d));
    let both = Condition::And(Box::new(eq("city", text("Boston"))), Box::new(eq("age", Value::Integer(31))));
    assert!(!condition_check(ann, &both, &d));
    let either = Condition::Or(Box::new(eq("city", text("LA"))), Box::new(eq("age", Value::Integer(30))));
    assert!(condition_check(ann, &either, &d));
}

#[test]
fn filter_keeps_matching_rows_in_order() {
    let d = people();
    let f = filter_dataset(&d, &eq("city", text("Boston")));
    assert_eq!(f.columns().len(), 3);
    assert_eq!(names(&f), vec![text("Ann"), text("Cid")]);
}

#[test]
fn filter_and_its_negation_split_the_rows() {
    let d = people();
    let c = eq("city", text("NYC"));
    let yes = filter_dataset(&d, &c);
    let no = filter_dataset(&d, &Condition::Not(Box::new(eq("city", text("NYC")))));
    assert_eq!(yes.len() + no.len(), d.len());
}

#[test]
fn filtering_twice_changes_nothing() {
    let d = people();
    let c = Condition::Or(Box::new(eq("city", text("LA"))), Box::new(eq("name", text("Bob"))));
    let once = filter_dataset(&d, &c);
    let twice = filter_dataset(&once, &c);
    assert_eq!(names(&once), names(&twice));
}

#[test]
fn group_by_in_order_of_first_occurrence() {
    let groups = group_by_dataset(people(), &String::from("city"));
    let keys: Vec<Value> = groups.iter().map(|(k, _)| k.clone()).collect();
    assert_eq!(keys, vec![text("Boston"), text("NYC"), text("LA")]);
    assert_eq!(names(&groups[0].1), vec![text("Ann"), text("Cid")]);
    assert_eq!(names(&groups[1].1), vec![text("Bob"), text("Dan")]);
    assert_eq!(names(&groups[2].1), vec![text("Eve")]);
    let total: usize = groups.iter().map(|(_, g)| g.len()).sum();
    assert_eq!(total, 5);
}

#[test]
fn group_by_of_empty_dataset_has_no_groups() {
    let d = filter_dataset(&people(), &eq("city", text("Paris")));
    assert!(group_by_dataset(d, &String::from("city")).is_empty());
}

#[test]
fn aggregate_count_sum_average() {
    let groups = group_by_dataset(people(), &String::from("city"));
    let counts = aggregate_dataset(group_by_dataset(people(), &String::from("city")), &Aggregation::Count(String::from("age")));
    assert_eq!(counts, vec![(text("Boston"), Value::Integer(2)), (text("NYC"), Value::Integer(2)), (text("LA"), Value::Integer(1))]);
    let sums = aggregate_dataset(groups, &Aggregation::Sum(String::from("age")));
    assert_eq!(sums, vec![(text("Boston"), Value::Integer(70)), (text("NYC"), Value::Integer(60)), (text("LA"), Value::Integer(20))]);
    let avgs = aggregate_dataset(group_by_dataset(people(), &String::from("city")), &Aggregation::Average(String::from("age")));
    assert_eq!(avgs, vec![(text("Boston"), Value::Integer(35)), (text("NYC"), Value::Integer(30)), (text("LA"), Value::Integer(20))]);
}

#[test]
fn average_rounds_toward_zero_and_skips_text() {
    let mut d = Dataset::new(vec![(String::from("k"), ColumnType::String), (String::from("v"), ColumnType::Integer)]);
    d.add_row(Row::new(vec![text("a"), Value::Integer(-7)]));
    d.add_row(Row::new(vec![text("a"), Value::Integer(0)]));
    d.add_row(Row::new(vec![text("b"), Value::Integer(7)]));
    d.add_row(Row::new(vec![text("b"), text("n/a")]));
    let avgs = aggregate_dataset(group_by_dataset(d, &String::from("k")), &Aggregation::Average(String::from("v")));
    assert_eq!(avgs, vec![(text("a"), Value::Integer(-3)), (text("b"), Value::Integer(3))]);
}

#[test]
fn sum_ignores_text_values() {
    let mut d = Dataset::new(vec![(String::from("k"), ColumnType::String), (String::from("v"), ColumnType::Integer)]);
    d.add_row(Row::new(vec![text("a"), Value::Integer(4)]));
    d.add_row(Row::new(vec![text("a"), text("x")]));
    let sums = aggregate_dataset(group_by_dataset(d, &String::from("k")), &Aggregation::Sum(String::from("v")));
    assert_eq!(sums, vec![(text("a"), Value::Integer(4))]);
}

#[test]
fn query_filters_groups_and_aggregates() {
    let d = people();
    let q = Query::new(
        Condition::Not(Box::new(eq("name", text("Bob")))),
        String::from("city"),
        Aggregation::Sum(String::from("age")),
    );
    let r = compute_query_on_dataset(&d, &q);
    assert_eq!(r.columns(), &vec![(String::from("city"), ColumnType::String), (String::from("Sum(age)"), ColumnType::Integer)]);
    assert_eq!(r.len(), 3);
    let rows: Vec<(Value, Value)> = (0..r.len()).map(|i| (r.row(i).get_value(0).clone(), r.row(i).get_value(1).clone())).collect();
    assert_eq!(rows, vec![(text("Boston"), Value::Integer(70)), (text("NYC"), Value::Integer(35)), (text("LA"), Value::Integer(20))]);
}

#[test]
fn query_count_column_names() {
    let d = people();
    let q = Query::new(eq("city", text("Boston")), String::from("city"), Aggregation::Count(String::from("name")));
    let r = compute_query_on_dataset(&d, &q);
    assert_eq!(r.columns()[1].0, "Count(name)");
    assert_eq!(r.len(), 1);
    assert_eq!(r.row(0).get_value(1), &Value::Integer(2));
    let q = Query::new(eq("city", text("Boston")), String::from("city"), Aggregation::Average(String::from("age")));
    assert_eq!(compute_query_on_dataset(&d, &q).columns()[1].0, "Average(age)");
}

#[test]
fn query_with_no_matching_rows_is_empty() {
    let d = people();
    let q = Query::new(eq("city", text("Paris")), String::from("name"), Aggregation::Average(String::from("missing")));
    let r = compute_query_on_dataset(&d, &q);
    assert_eq!(r.len(), 0);
    assert_eq!(r.columns().len(), 2);
}

#[test]
fn column_lookup() {
    let d = people();
    assert_eq!(d.column_index(&String::from("age")), 2);
    assert_eq!(*d.column_type(&String::from("age")), ColumnType::Integer);
    assert_eq!(*d.column_type(&String::from("city")), ColumnType::String);
}
