use vstd::prelude::*;
use crate::dataset::{ColumnType, Dataset, DatasetView, Row, Value, ValueView, copy_columns};
use crate::query::{Aggregation, Condition, Query, aggregated_column, result_column_name};

verus! {

/// Every column that `cond` names exists in `d` and lies within rows of `width` values.
pub open spec fn condition_fits(cond: Condition, d: DatasetView, width: int) -> bool
    decreases cond,
{
    match cond {
        Condition::Equal(c, _) => d.has_column(c@) && d.column_index(c@) < width,
        Condition::Not(a) => condition_fits(*a, d, width),
        Condition::And(a, b) => condition_fits(*a, d, width) && condition_fits(*b, d, width),
        Condition::Or(a, b) => condition_fits(*a, d, width) && condition_fits(*b, d, width),
    }
}

/// `row` satisfies `cond`, columns being looked up by name in `d`.
pub open spec fn holds(cond: Condition, row: Seq<Value>, d: DatasetView) -> bool
    decreases cond,
{
    match cond {
        Condition::Equal(c, v) => v@ == row[d.column_index(c@)]@,
        Condition::Not(a) => !holds(*a, row, d),
        Condition::And(a, b) => holds(*a, row, d) && holds(*b, row, d),
        Condition::Or(a, b) => holds(*a, row, d) || holds(*b, row, d),
    }
}

/// The rows that satisfy `cond`, in their order.
pub open spec fn filtered_rows(rows: Seq<Seq<Value>>, cond: Condition, d: DatasetView) -> Seq<
    Seq<Value>,
>
    decreases rows.len(),
{
    if rows.len() == 0 {
        Seq::empty()
    } else {
        let p = filtered_rows(rows.drop_last(), cond, d);
        if holds(cond, rows.last(), d) {
            p.push(rows.last())
        } else {
            p
        }
    }
}

/// The dataset restricted to the rows that satisfy `cond`.
pub open spec fn filtered(d: DatasetView, cond: Condition) -> DatasetView {
    DatasetView { columns: d.columns, rows: filtered_rows(d.rows, cond, d) }
}

/// The distinct values of column `idx`, in the order of their first occurrence.
pub open spec fn group_keys(rows: Seq<Seq<Value>>, idx: int) -> Seq<ValueView>
    decreases rows.len(),
{
    if rows.len() == 0 {
        Seq::empty()
    } else {
        let k = group_keys(rows.drop_last(), idx);
        let v = rows.last()[idx]@;
        if k.contains(v) {
            k
        } else {
            k.push(v)
        }
    }
}

/// The rows whose value in column `idx` is `key`, in their order.
pub open spec fn rows_with_key(rows: Seq<Seq<Value>>, idx: int, key: ValueView) -> Seq<Seq<Value>>
    decreases rows.len(),
{
    if rows.len() == 0 {
        Seq::empty()
    } else {
        let p = rows_with_key(rows.drop_last(), idx, key);
        if rows.last()[idx]@ == key {
            p.push(rows.last())
        } else {
            p
        }
    }
}

/// The group of `d` whose value in column `idx` is `key`.
pub open spec fn group_of(d: DatasetView, idx: int, key: ValueView) -> DatasetView {
    DatasetView { columns: d.columns, rows: rows_with_key(d.rows, idx, key) }
}

/// The sum of the integers in column `idx`; text values count as zero.
pub open spec fn column_sum(rows: Seq<Seq<Value>>, idx: int) -> int
    decreases rows.len(),
{
    if rows.len() == 0 {
        0
    } else {
        column_sum(rows.drop_last(), idx) + match rows.last()[idx] {
            Value::Integer(v) => v as int,
            _ => 0,
        }
    }
}

/// Every running total of column `idx`, row by row, fits in an `i32`.
pub open spec fn sum_fits(rows: Seq<Seq<Value>>, idx: int) -> bool {
    forall|k: int|
        0 <= k <= rows.len() ==> i32::MIN <= #[trigger] column_sum(rows.take(k), idx) <= i32::MAX
}

/// Integer division rounded toward zero.
pub open spec fn trunc_div(x: int, d: int) -> int {
    if x == 0 {
        0
    } else if x > 0 && d > 0 {
        x / d
    } else if x < 0 && d < 0 {
        (x * -1) / (d * -1)
    } else if x < 0 {
        ((x * -1) / d) * -1
    } else {
        (x / (d * -1)) * -1
    }
}

/// A quotient rounded toward zero of two `i32` values fits in an `i32`,
/// unless it is `i32::MIN` divided by `-1`.
proof fn lemma_trunc_div_fits(x: int, d: int)
    requires
        i32::MIN <= x <= i32::MAX,
        i32::MIN <= d <= i32::MAX,
        d != 0,
        !(x == i32::MIN && d == -1),
    ensures
        i32::MIN <= trunc_div(x, d) <= i32::MAX,
{
    if x > 0 && d > 0 {
        assert(0 <= x / d <= x) by (nonlinear_arith)
            requires
                x > 0,
                d > 0,
        ;
    } else if x < 0 && d < 0 {
        if d == -1 {
            assert((x * -1) / (d * -1) == x * -1) by (nonlinear_arith)
                requires
                    d == -1,
            ;
        } else {
            assert(0 <= (x * -1) / (d * -1) <= x * -1 / 2) by (nonlinear_arith)
                requires
                    x < 0,
                    d <= -2,
            ;
        }
    } else if x < 0 {
        assert(0 <= (x * -1) / d <= x * -1) by (nonlinear_arith)
            requires
                x < 0,
                d > 0,
        ;
    } else if x > 0 {
        assert(0 <= x / (d * -1) <= x) by (nonlinear_arith)
            requires
                x > 0,
                d < 0,
        ;
    }
}

/// The number of rows of `d` as an `i32` (wrapping, as a cast does).
pub open spec fn row_count(d: DatasetView) -> i32 {
    d.rows.len() as i32
}

/// The aggregated value of a group.
pub open spec fn aggregate_value(d: DatasetView, aggregation: Aggregation) -> i32 {
    let total = column_sum(d.rows, d.column_index(aggregated_column(aggregation)));
    match aggregation {
        Aggregation::Count(_) => row_count(d),
        Aggregation::Sum(_) => total as i32,
        Aggregation::Average(_) => if row_count(d) != 0 {
            trunc_div(total, row_count(d) as int) as i32
        } else {
            0
        },
    }
}

/// The aggregation can be computed on `d` without overflow: the column it
/// reads exists (for a sum or an average), no running total leaves the
/// `i32` range, and an average divides no `i32::MIN` by `-1`.
pub open spec fn aggregation_defined(d: DatasetView, aggregation: Aggregation) -> bool {
    let idx = d.column_index(aggregated_column(aggregation));
    match aggregation {
        Aggregation::Count(_) => true,
        Aggregation::Sum(_) => d.has_column(aggregated_column(aggregation)) && sum_fits(d.rows, idx),
        Aggregation::Average(_) => d.has_column(aggregated_column(aggregation)) && sum_fits(
            d.rows,
            idx,
        ) && !(row_count(d) == -1 && column_sum(d.rows, idx) == i32::MIN),
    }
}

/// Whether `row` satisfies `condition`, columns being looked up by name in `dataset`.
pub fn condition_check(row: &Row, condition: &Condition, dataset: &Dataset) -> (b: bool)
    requires
        condition_fits(*condition, dataset@, row@.len() as int),
    ensures
        b == holds(*condition, row@, dataset@),
    decreases condition,
{
    match condition {
        Condition::Equal(column_name, value) => {
            let index_number = dataset.column_index(column_name);
            let value_inside = row.get_value(index_number);
            value == value_inside
        },
        Condition::Not(cond1) => { !condition_check(row, cond1, dataset) },
        Condition::And(cond1, cond2) => {
            let result_cond1 = condition_check(row, cond1, dataset);
            let result_cond2 = condition_check(row, cond2, dataset);
            if result_cond1 {
                result_cond2
            } else {
                false
            }
        },
        Condition::Or(cond1, cond2) => {
            let result_cond1 = condition_check(row, cond1, dataset);
            let result_cond2 = condition_check(row, cond2, dataset);
            if result_cond1 {
                result_cond1
            } else {
                result_cond2
            }
        },
    }
}

/// The dataset of the rows that satisfy `filter`, in their order, with the same columns.
pub fn filter_dataset(dataset: &Dataset, filter: &Condition) -> (res: Dataset)
    requires
        condition_fits(*filter, dataset@, dataset@.columns.len() as int),
    ensures
        res@ == filtered(dataset@, *filter),
{
    let mut new_dataset = Dataset::new(copy_columns(dataset.columns()));
    let n = dataset.len();
    for i in 0..n
        invariant
            n == dataset@.rows.len(),
            condition_fits(*filter, dataset@, dataset@.columns.len() as int),
            new_dataset@.columns == dataset@.columns,
            new_dataset@.rows == filtered_rows(dataset@.rows.take(i as int), *filter, dataset@),
    {
        let row = dataset.row(i);
        assert(dataset@.rows.take(i + 1).drop_last() =~= dataset@.rows.take(i as int));
        if condition_check(row, filter, dataset) {
            new_dataset.add_row(row.clone());
        }
    }
    assert(dataset@.rows.take(n as int) =~= dataset@.rows);
    new_dataset
}

/// The distinct values of the given column, in the order of their first occurrence.
fn distinct_keys(dataset: &Dataset, idx: usize) -> (keys: Vec<Value>)
    requires
        idx < dataset@.columns.len(),
    ensures
        keys@.map_values(|k: Value| k@) == group_keys(dataset@.rows, idx as int),
{
    let mut keys: Vec<Value> = Vec::new();
    let n = dataset.len();
    for i in 0..n
        invariant
            n == dataset@.rows.len(),
            idx < dataset@.columns.len(),
            keys@.map_values(|k: Value| k@) == group_keys(dataset@.rows.take(i as int), idx as int),
    {
        let row = dataset.row(i);
        let v = row.get_value(idx);
        let ghost prefix = dataset@.rows.take(i as int);
        assert(dataset@.rows.take(i + 1).drop_last() =~= prefix);
        assert(dataset@.rows.take(i + 1).last() == row@);
        let ghost old_keys = keys@.map_values(|k: Value| k@);
        let mut found = false;
        let m = keys.len();
        for j in 0..m
            invariant
                m == keys@.len(),
                old_keys == keys@.map_values(|k: Value| k@),
                found <==> exists|t: int| 0 <= t < j && old_keys[t] == v@,
        {
            if keys[j] == *v {
                found = true;
            }
            assert(old_keys[j as int] == keys@[j as int]@);
        }
        assert(found <==> old_keys.contains(v@));
        if !found {
            keys.push(v.clone());
            assert(keys@.map_values(|k: Value| k@) =~= old_keys.push(v@));
        }
    }
    assert(dataset@.rows.take(n as int) =~= dataset@.rows);
    keys
}

/// The rows of `dataset` whose value in column `idx` is `key`, as a dataset with the same columns.
fn rows_matching(dataset: &Dataset, idx: usize, key: &Value) -> (res: Dataset)
    requires
        idx < dataset@.columns.len(),
    ensures
        res@ == group_of(dataset@, idx as int, key@),
{
    let mut group = Dataset::new(copy_columns(dataset.columns()));
    let n = dataset.len();
    for i in 0..n
        invariant
            n == dataset@.rows.len(),
            idx < dataset@.columns.len(),
            group@.columns == dataset@.columns,
            group@.rows == rows_with_key(dataset@.rows.take(i as int), idx as int, key@),
    {
        let row = dataset.row(i);
        assert(dataset@.rows.take(i + 1).drop_last() =~= dataset@.rows.take(i as int));
        if *row.get_value(idx) == *key {
            group.add_row(row.clone());
        }
    }
    assert(dataset@.rows.take(n as int) =~= dataset@.rows);
    group
}

/// The rows of `dataset` grouped by their value in the column `group_by_column`:
/// one group per distinct value, in the order of first occurrence, each holding
/// the rows with that value in their order.
pub fn group_by_dataset(dataset: Dataset, group_by_column: &String) -> (groups: Vec<(Value, Dataset)>)
    requires
        dataset@.has_column(group_by_column@),
    ensures
        groups@.len() == group_keys(dataset@.rows, dataset@.column_index(group_by_column@)).len(),
        forall|i: int|
            0 <= i < groups@.len() ==> {
                let idx = dataset@.column_index(group_by_column@);
                let key = group_keys(dataset@.rows, idx)[i];
                &&& (#[trigger] groups@[i]).0@ == key
                &&& groups@[i].1@ == group_of(dataset@, idx, key)
            },
{
    let index = dataset.column_index(group_by_column);
    let keys = distinct_keys(&dataset, index);
    let ghost key_views = keys@.map_values(|k: Value| k@);
    let mut groups: Vec<(Value, Dataset)> = Vec::new();
    let m = keys.len();
    for g in 0..m
        invariant
            m == keys@.len(),
            index < dataset@.columns.len(),
            index == dataset@.column_index(group_by_column@),
            key_views == keys@.map_values(|k: Value| k@),
            key_views == group_keys(dataset@.rows, index as int),
            groups@.len() == g,
            forall|i: int|
                0 <= i < g ==> {
                    &&& (#[trigger] groups@[i]).0@ == key_views[i]
                    &&& groups@[i].1@ == group_of(dataset@, index as int, key_views[i])
                },
    {
        let group = rows_matching(&dataset, index, &keys[g]);
        groups.push((keys[g].clone(), group));
    }
    groups
}

/// The running total of the integers in column `idx` of `dataset`.
fn sum_column(dataset: &Dataset, idx: usize) -> (total: i32)
    requires
        idx < dataset@.columns.len(),
        sum_fits(dataset@.rows, idx as int),
    ensures
        total == column_sum(dataset@.rows, idx as int),
{
    let mut total: i32 = 0;
    let n = dataset.len();
    assert(dataset@.rows.take(0) =~= Seq::<Seq<Value>>::empty());
    for i in 0..n
        invariant
            n == dataset@.rows.len(),
            idx < dataset@.columns.len(),
            sum_fits(dataset@.rows, idx as int),
            total == column_sum(dataset@.rows.take(i as int), idx as int),
    {
        let row = dataset.row(i);
        assert(dataset@.rows.take(i + 1).drop_last() =~= dataset@.rows.take(i as int));
        assert(i32::MIN <= column_sum(dataset@.rows.take(i + 1), idx as int) <= i32::MAX);
        match row.get_value(idx) {
            Value::Integer(v) => {
                total = total + *v;
            },
            _ => {},
        }
    }
    assert(dataset@.rows.take(n as int) =~= dataset@.rows);
    total
}

/// The aggregated value of one group.
fn aggregate_group(dataset: &Dataset, aggregation: &Aggregation) -> (v: i32)
    requires
        aggregation_defined(dataset@, *aggregation),
    ensures
        v == aggregate_value(dataset@, *aggregation),
{
    match aggregation {
        Aggregation::Count(_col_name) => {
            let count = #[verifier::truncate] (dataset.len() as i32);
            count
        },
        Aggregation::Sum(col_name) => {
            let col_idx = dataset.column_index(col_name);
            sum_column(dataset, col_idx)
        },
        Aggregation::Average(col_name) => {
            let col_idx = dataset.column_index(col_name);
            let count = #[verifier::truncate] (dataset.len() as i32);
            let total = sum_column(dataset, col_idx);
            if count != 0 {
                proof {
                    lemma_trunc_div_fits(total as int, count as int);
                }
                match total.checked_div(count) {
                    Some(q) => q,
                    None => 0,
                }
            } else {
                0
            }
        },
    }
}

/// Each group's key with the aggregated value of its rows, in the order of the groups.
pub fn aggregate_dataset(dataset: Vec<(Value, Dataset)>, aggregation: &Aggregation) -> (aggregated:
    Vec<(Value, Value)>)
    requires
        forall|i: int|
            0 <= i < dataset@.len() ==> aggregation_defined(
                (#[trigger] dataset@[i]).1@,
                *aggregation,
            ),
    ensures
        aggregated@.len() == dataset@.len(),
        forall|i: int|
            0 <= i < dataset@.len() ==> {
                &&& (#[trigger] aggregated@[i]).0 == dataset@[i].0
                &&& aggregated@[i].1 == Value::Integer(aggregate_value(dataset@[i].1@, *aggregation))
            },
{
    let mut aggregated: Vec<(Value, Value)> = Vec::new();
    let n = dataset.len();
    for i in 0..n
        invariant
            n == dataset@.len(),
            forall|i: int|
                0 <= i < dataset@.len() ==> aggregation_defined(
                    (#[trigger] dataset@[i]).1@,
                    *aggregation,
                ),
            aggregated@.len() == i,
            forall|j: int|
                0 <= j < i ==> {
                    &&& (#[trigger] aggregated@[j]).0 == dataset@[j].0
                    &&& aggregated@[j].1 == Value::Integer(aggregate_value(dataset@[j].1@, *aggregation))
                },
    {
        let result = aggregate_group(&dataset[i].1, aggregation);
        aggregated.push((dataset[i].0.clone(), Value::Integer(result)));
    }
    aggregated
}

/// The query can be answered without a panic: the filter's columns and the
/// grouping column exist, and every group can be aggregated.
pub open spec fn query_defined(d: DatasetView, query: Query) -> bool {
    let f = filtered(d, query.filter());
    let idx = d.column_index(query.group_by());
    let keys = group_keys(f.rows, idx);
    &&& condition_fits(query.filter(), d, d.columns.len() as int)
    &&& d.has_column(query.group_by())
    &&& forall|i: int|
        0 <= i < keys.len() ==> aggregation_defined(
            group_of(f, idx, #[trigger] keys[i]),
            query.aggregate(),
        )
}

/// The columns of a query's answer: the grouping column, with its type in
/// `d`, then the aggregated integers.
pub open spec fn answer_columns(d: DatasetView, query: Query) -> Seq<(Seq<char>, ColumnType)> {
    seq![
        (query.group_by(), d.columns[d.column_index(query.group_by())].1),
        (result_column_name(query.aggregate()), ColumnType::Integer),
    ]
}

/// The answer to `query` on `dataset`: one row per distinct value of the
/// grouping column among the rows that satisfy the filter, in the order of
/// first occurrence, holding that value and the aggregate of its group.
pub fn compute_query_on_dataset(dataset: &Dataset, query: &Query) -> (result: Dataset)
    requires
        query_defined(dataset@, *query),
    ensures
        ({
            let f = filtered(dataset@, query.filter());
            let idx = dataset@.column_index(query.group_by());
            let keys = group_keys(f.rows, idx);
            &&& result@.columns == answer_columns(dataset@, *query)
            &&& result@.rows.len() == keys.len()
            &&& forall|i: int|
                0 <= i < keys.len() ==> {
                    &&& (#[trigger] result@.rows[i]).len() == 2
                    &&& result@.rows[i][0]@ == keys[i]
                    &&& result@.rows[i][1] == Value::Integer(
                        aggregate_value(group_of(f, idx, keys[i]), query.aggregate()),
                    )
                }
        }),
{
    let filtered_ds = filter_dataset(dataset, query.get_filter());
    let ghost f = filtered(dataset@, query.filter());
    let ghost idx = dataset@.column_index(query.group_by());
    let ghost keys = group_keys(f.rows, idx);
    let grouped = group_by_dataset(filtered_ds, query.get_group_by());
    assert forall|i: int| 0 <= i < grouped@.len() implies aggregation_defined(
        (#[trigger] grouped@[i]).1@,
        query.aggregate(),
    ) by {
        assert(grouped@[i].1@ == group_of(f, idx, keys[i]));
    }
    let aggregated = aggregate_dataset(grouped, query.get_aggregate());

    let group_by_column_name = query.get_group_by();
    let group_by_column_type = dataset.column_type(group_by_column_name);
    let columns = vec![
        (group_by_column_name.clone(), *group_by_column_type),
        (query.get_aggregate().get_result_column_name(), ColumnType::Integer),
    ];
    let mut result = Dataset::new(columns);
    assert(result@.columns =~= answer_columns(dataset@, *query));
    let n = aggregated.len();
    for i in 0..n
        invariant
            n == aggregated@.len(),
            result@.columns == answer_columns(dataset@, *query),
            result@.rows.len() == i,
            forall|j: int|
                0 <= j < i ==> {
                    &&& (#[trigger] result@.rows[j]).len() == 2
                    &&& result@.rows[j][0] == aggregated@[j].0
                    &&& result@.rows[j][1] == aggregated@[j].1
                },
    {
        let row = Row::new(vec![aggregated[i].0.clone(), aggregated[i].1.clone()]);
        result.add_row(row);
    }
    result
}

/// Whether a row satisfies a condition depends on the dataset only through its columns.
proof fn lemma_holds_columns(cond: Condition, row: Seq<Value>, d1: DatasetView, d2: DatasetView)
    requires
        d1.columns == d2.columns,
    ensures
        holds(cond, row, d1) == holds(cond, row, d2),
    decreases cond,
{
    match cond {
        Condition::Equal(_, _) => {},
        Condition::Not(a) => lemma_holds_columns(*a, row, d1, d2),
        Condition::And(a, b) => {
            lemma_holds_columns(*a, row, d1, d2);
            lemma_holds_columns(*b, row, d1, d2);
        },
        Condition::Or(a, b) => {
            lemma_holds_columns(*a, row, d1, d2);
            lemma_holds_columns(*b, row, d1, d2);
        },
    }
}

/// Law: every row satisfies either a condition or its negation, never both,
/// so the two filters split the rows between them.
pub proof fn law_filter_complement(d: DatasetView, cond: Condition)
    ensures
        filtered(d, cond).rows.len() + filtered(d, Condition::Not(Box::new(cond))).rows.len()
            == d.rows.len(),
{
    lemma_filter_complement(d.rows, cond, d);
}

proof fn lemma_filter_complement(rows: Seq<Seq<Value>>, cond: Condition, d: DatasetView)
    ensures
        filtered_rows(rows, cond, d).len() + filtered_rows(rows, Condition::Not(Box::new(cond)), d).len()
            == rows.len(),
    decreases rows.len(),
{
    if rows.len() > 0 {
        lemma_filter_complement(rows.drop_last(), cond, d);
    }
}

/// Law: filtering twice with the same condition keeps the same rows as filtering once.
pub proof fn law_filter_idempotent(d: DatasetView, cond: Condition)
    ensures
        filtered(filtered(d, cond), cond) == filtered(d, cond),
{
    lemma_filter_idempotent(d.rows, cond, d);
}

proof fn lemma_filter_idempotent(rows: Seq<Seq<Value>>, cond: Condition, d: DatasetView)
    ensures
        filtered_rows(filtered_rows(rows, cond, d), cond, filtered(d, cond)) == filtered_rows(
            rows,
            cond,
            d,
        ),
    decreases rows.len(),
{
    if rows.len() > 0 {
        let r = rows.drop_last();
        let x = rows.last();
        lemma_filter_idempotent(r, cond, d);
        lemma_holds_columns(cond, x, d, filtered(d, cond));
        let p = filtered_rows(r, cond, d);
        if holds(cond, x, d) {
            assert(p.push(x).drop_last() =~= p);
        }
    }
}

/// The sizes of the groups of the given keys, added up.
pub open spec fn group_sizes(rows: Seq<Seq<Value>>, idx: int, keys: Seq<ValueView>) -> int
    decreases keys.len(),
{
    if keys.len() == 0 {
        0
    } else {
        group_sizes(rows, idx, keys.drop_last()) + rows_with_key(rows, idx, keys.last()).len()
    }
}

/// No key occurs twice.
pub open spec fn distinct_keys_spec(keys: Seq<ValueView>) -> bool {
    forall|i: int, j: int| 0 <= i < keys.len() && 0 <= j < keys.len() && i != j ==> keys[i] != keys[j]
}

proof fn lemma_group_keys_distinct(rows: Seq<Seq<Value>>, idx: int)
    ensures
        distinct_keys_spec(group_keys(rows, idx)),
    decreases rows.len(),
{
    if rows.len() > 0 {
        lemma_group_keys_distinct(rows.drop_last(), idx);
    }
}

/// A key whose group is not empty is among the keys.
proof fn lemma_key_of_nonempty_group(rows: Seq<Seq<Value>>, idx: int, key: ValueView)
    ensures
        rows_with_key(rows, idx, key).len() > 0 ==> group_keys(rows, idx).contains(key),
    decreases rows.len(),
{
    if rows.len() > 0 {
        let r = rows.drop_last();
        lemma_key_of_nonempty_group(r, idx, key);
        let k = group_keys(r, idx);
        if !k.contains(rows.last()[idx]@) && k.contains(key) {
            let j = choose|j: int| 0 <= j < k.len() && k[j] == key;
            assert(k.push(rows.last()[idx]@)[j] == key);
        }
        if !k.contains(rows.last()[idx]@) && rows.last()[idx]@ == key {
            assert(k.push(rows.last()[idx]@)[k.len() as int] == key);
        }
    }
}

/// Adding a row adds one to the group of its key, if that key is listed.
proof fn lemma_group_sizes_step(rows: Seq<Seq<Value>>, idx: int, keys: Seq<ValueView>)
    requires
        rows.len() > 0,
        distinct_keys_spec(keys),
    ensures
        group_sizes(rows, idx, keys) == group_sizes(rows.drop_last(), idx, keys) + if keys.contains(
            rows.last()[idx]@,
        ) {
            1int
        } else {
            0int
        },
    decreases keys.len(),
{
    if keys.len() > 0 {
        let k2 = keys.drop_last();
        let v = rows.last()[idx]@;
        assert(distinct_keys_spec(k2));
        lemma_group_sizes_step(rows, idx, k2);
        if keys.last() == v {
            assert(!k2.contains(v)) by {
                if k2.contains(v) {
                    let j = choose|j: int| 0 <= j < k2.len() && k2[j] == v;
                    assert(keys[j] == keys[keys.len() - 1]);
                }
            }
            assert(keys.contains(v)) by {
                assert(keys[keys.len() - 1] == v);
            }
        } else {
            assert(keys.contains(v) == k2.contains(v)) by {
                if keys.contains(v) {
                    let j = choose|j: int| 0 <= j < keys.len() && keys[j] == v;
                    assert(k2[j] == v);
                }
                if k2.contains(v) {
                    let j = choose|j: int| 0 <= j < k2.len() && k2[j] == v;
                    assert(keys[j] == v);
                }
            }
        }
    }
}

/// Law: grouping puts every row in exactly one group, so the group sizes add
/// up to the number of rows.
pub proof fn law_groups_partition_rows(rows: Seq<Seq<Value>>, idx: int)
    ensures
        distinct_keys_spec(group_keys(rows, idx)),
        group_sizes(rows, idx, group_keys(rows, idx)) == rows.len(),
    decreases rows.len(),
{
    lemma_group_keys_distinct(rows, idx);
    if rows.len() > 0 {
        let r = rows.drop_last();
        let v = rows.last()[idx]@;
        let k = group_keys(r, idx);
        law_groups_partition_rows(r, idx);
        if k.contains(v) {
            lemma_group_sizes_step(rows, idx, k);
        } else {
            lemma_group_sizes_step(rows, idx, k);
            lemma_key_of_nonempty_group(r, idx, v);
            assert(k.push(v).drop_last() =~= k);
        }
    }
}

/// Law: the connectives mean what they say: a row satisfies a conjunction
/// exactly when it satisfies both sides, a disjunction exactly when it
/// satisfies either side, and a negation exactly when it fails the inner
/// condition; so a row that fails the left side of a conjunction never
/// satisfies it.
pub proof fn law_connectives(a: Condition, b: Condition, row: Seq<Value>, d: DatasetView)
    ensures
        holds(Condition::And(Box::new(a), Box::new(b)), row, d) == (holds(a, row, d) && holds(b, row, d)),
        holds(Condition::Or(Box::new(a), Box::new(b)), row, d) == (holds(a, row, d) || holds(b, row, d)),
        holds(Condition::Not(Box::new(a)), row, d) == !holds(a, row, d),
        !holds(a, row, d) ==> !holds(Condition::And(Box::new(a), Box::new(b)), row, d),
{
}

/// Law: a comparison holds exactly when the row's value in the first column
/// of that name equals the given value.
pub proof fn law_equal_compares_the_named_column(
    name: String,
    v: Value,
    row: Seq<Value>,
    d: DatasetView,
    i: int,
)
    requires
        0 <= i < d.columns.len(),
        d.columns[i].0 == name@,
        forall|j: int| 0 <= j < i ==> d.columns[j].0 != name@,
    ensures
        holds(Condition::Equal(name, v), row, d) == (v@ == row[i]@),
{
    crate::dataset::lemma_find_column(d.columns, name@);
}

/// Law: the count of a group is its number of rows, whatever the counted
/// column is and whatever values it holds.
pub proof fn law_count_is_number_of_rows(d: DatasetView, column: String)
    ensures
        aggregate_value(d, Aggregation::Count(column)) == d.rows.len() as i32,
        aggregation_defined(d, Aggregation::Count(column)),
{
}

/// Law: counting the groups of a dataset adds up to its number of rows:
/// two rows with the same value in the counted column are both counted.
pub proof fn law_count_two_equal_rows(columns: Seq<(Seq<char>, ColumnType)>, r: Seq<Value>, column: String)
    ensures
        aggregate_value(DatasetView { columns, rows: seq![r, r] }, Aggregation::Count(column)) == 2,
{
}

} // verus!
