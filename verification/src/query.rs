use vstd::prelude::*;
use crate::dataset::{Value, ValueView};

verus! {

/// A predicate on the rows of a dataset.
#[derive(Debug)]
pub enum Condition {
    /// The row's value in the named column equals the given value.
    Equal(String, Value),
    Not(Box<Condition>),
    And(Box<Condition>, Box<Condition>),
    Or(Box<Condition>, Box<Condition>),
}

/// The mathematical model of a [`Condition`]: names and text as character sequences.
pub enum ConditionView {
    Equal(Seq<char>, ValueView),
    Not(Box<ConditionView>),
    And(Box<ConditionView>, Box<ConditionView>),
    Or(Box<ConditionView>, Box<ConditionView>),
}

/// The model of a condition.
pub open spec fn condition_model(c: Condition) -> ConditionView
    decreases c,
{
    match c {
        Condition::Equal(name, v) => ConditionView::Equal(name@, v@),
        Condition::Not(a) => ConditionView::Not(Box::new(condition_model(*a))),
        Condition::And(a, b) => ConditionView::And(
            Box::new(condition_model(*a)),
            Box::new(condition_model(*b)),
        ),
        Condition::Or(a, b) => ConditionView::Or(
            Box::new(condition_model(*a)),
            Box::new(condition_model(*b)),
        ),
    }
}

/// How the rows of each group are summarised into one integer.
#[derive(Debug)]
pub enum Aggregation {
    /// The number of rows.
    Count(String),
    /// The sum of the integers in the named column.
    Sum(String),
    /// That sum divided by the number of rows, rounded toward zero.
    Average(String),
}

/// The name of the result column of an aggregation: the operation, then
/// the aggregated column in parentheses, as in `Sum(amount)`.
pub open spec fn result_column_name(aggregation: Aggregation) -> Seq<char> {
    match aggregation {
        Aggregation::Count(c) => "Count("@ + c@ + ")"@,
        Aggregation::Sum(c) => "Sum("@ + c@ + ")"@,
        Aggregation::Average(c) => "Average("@ + c@ + ")"@,
    }
}

/// The column an aggregation reads.
pub open spec fn aggregated_column(aggregation: Aggregation) -> Seq<char> {
    match aggregation {
        Aggregation::Count(c) => c@,
        Aggregation::Sum(c) => c@,
        Aggregation::Average(c) => c@,
    }
}

impl Aggregation {
    /// The name of the column the aggregation reads.
    pub fn get_column_name(&self) -> (c: &String)
        ensures
            c@ == aggregated_column(*self),
    {
        match self {
            Aggregation::Count(c) => c,
            Aggregation::Sum(c) => c,
            Aggregation::Average(c) => c,
        }
    }

    /// The name of the column that holds the aggregated values in a result.
    pub fn get_result_column_name(&self) -> (name: String)
        ensures
            name@ == result_column_name(*self),
    {
        let (op, c) = match self {
            Aggregation::Count(c) => ("Count(", c),
            Aggregation::Sum(c) => ("Sum(", c),
            Aggregation::Average(c) => ("Average(", c),
        };
        let mut name = String::from_str(op);
        name.append(c.as_str());
        name.append(")");
        name
    }
}

/// A query: keep the rows that satisfy `filter`, group them by the value in
/// the column `group_by`, and summarise each group with `aggregate`.
#[derive(Debug)]
pub struct Query {
    filter: Condition,
    group_by: String,
    aggregate: Aggregation,
}

impl Query {
    /// The filter condition.
    pub closed spec fn filter(&self) -> Condition {
        self.filter
    }

    /// The name of the grouping column.
    pub closed spec fn group_by(&self) -> Seq<char> {
        self.group_by@
    }

    /// The aggregation.
    pub closed spec fn aggregate(&self) -> Aggregation {
        self.aggregate
    }

    pub fn new(filter: Condition, group_by: String, aggregate: Aggregation) -> (q: Query)
        ensures
            q.filter() == filter,
            q.group_by() == group_by@,
            q.aggregate() == aggregate,
    {
        Query { filter, group_by, aggregate }
    }

    pub fn get_filter(&self) -> (c: &Condition)
        ensures
            *c == self.filter(),
    {
        &self.filter
    }

    pub fn get_group_by(&self) -> (g: &String)
        ensures
            g@ == self.group_by(),
    {
        &self.group_by
    }

    pub fn get_aggregate(&self) -> (a: &Aggregation)
        ensures
            *a == self.aggregate(),
    {
        &self.aggregate
    }
}

} // verus!
