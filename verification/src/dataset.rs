use vstd::prelude::*;
use vstd::std_specs::cmp::PartialEqSpecImpl;

verus! {

/// The type of the values held in a column.
#[derive(Clone, Copy, PartialEq, Eq, Structural, Debug)]
pub enum ColumnType {
    Integer,
    String,
}

/// One cell of a dataset.
#[derive(Debug)]
pub enum Value {
    Integer(i32),
    String(String),
}

/// The mathematical model of a [`Value`]: text is a sequence of characters.
pub enum ValueView {
    Integer(i32),
    String(Seq<char>),
}

impl View for Value {
    type V = ValueView;

    open spec fn view(&self) -> ValueView {
        match self {
            Value::Integer(i) => ValueView::Integer(*i),
            Value::String(s) => ValueView::String(s@),
        }
    }
}

impl Clone for Value {
    fn clone(&self) -> (res: Self)
        ensures
            res == *self,
    {
        match self {
            Value::Integer(i) => Value::Integer(*i),
            Value::String(s) => Value::String(s.clone()),
        }
    }
}

impl PartialEq for Value {
    fn eq(&self, other: &Self) -> (res: bool) {
        match (self, other) {
            (Value::Integer(a), Value::Integer(b)) => *a == *b,
            (Value::String(a), Value::String(b)) => a.eq(b),
            _ => false,
        }
    }
}

impl PartialEqSpecImpl for Value {
    open spec fn obeys_eq_spec() -> bool {
        true
    }

    open spec fn eq_spec(&self, other: &Value) -> bool {
        self@ == other@
    }
}

/// One row of a dataset: a value per column.
#[derive(Debug)]
pub struct Row {
    values: Vec<Value>,
}

impl View for Row {
    type V = Seq<Value>;

    closed spec fn view(&self) -> Seq<Value> {
        self.values@
    }
}

impl Clone for Row {
    fn clone(&self) -> (res: Self)
        ensures
            res@ == self@,
    {
        let mut values: Vec<Value> = Vec::new();
        let n = self.values.len();
        for i in 0..n
            invariant
                n == self.values@.len(),
                values@ == self.values@.take(i as int),
        {
            values.push(self.values[i].clone());
            assert(values@ =~= self.values@.take(i + 1));
        }
        assert(values@ =~= self.values@);
        Row { values }
    }
}

impl Row {
    /// A row holding `values` in order.
    pub fn new(values: Vec<Value>) -> (row: Row)
        ensures
            row@ == values@,
    {
        Row { values }
    }

    /// The value in column `index`.
    pub fn get_value(&self, index: usize) -> (v: &Value)
        requires
            index < self@.len(),
        ensures
            *v == self@[index as int],
    {
        &self.values[index]
    }

    /// The number of values in the row.
    pub fn len(&self) -> (n: usize)
        ensures
            n == self@.len(),
    {
        self.values.len()
    }
}

/// The model of a dataset's column list: names as character sequences.
pub open spec fn columns_view(columns: Seq<(String, ColumnType)>) -> Seq<(Seq<char>, ColumnType)> {
    columns.map_values(|c: (String, ColumnType)| (c.0@, c.1))
}

/// The position of the first column named `name`, or -1 when there is none.
pub open spec fn find_column(columns: Seq<(Seq<char>, ColumnType)>, name: Seq<char>) -> int
    decreases columns.len(),
{
    if columns.len() == 0 {
        -1
    } else if columns[0].0 == name {
        0
    } else {
        let r = find_column(columns.skip(1), name);
        if r < 0 {
            -1
        } else {
            r + 1
        }
    }
}

/// `find_column` is the first position holding `name`, or -1 when no position does.
pub proof fn lemma_find_column(columns: Seq<(Seq<char>, ColumnType)>, name: Seq<char>)
    ensures
        -1 <= find_column(columns, name) < columns.len(),
        find_column(columns, name) >= 0 ==> columns[find_column(columns, name)].0 == name,
        forall|j: int|
            0 <= j < columns.len() && (find_column(columns, name) < 0 || j < find_column(
                columns,
                name,
            )) ==> columns[j].0 != name,
    decreases columns.len(),
{
    if columns.len() > 0 && columns[0].0 != name {
        lemma_find_column(columns.skip(1), name);
        assert forall|j: int|
            0 <= j < columns.len() && (find_column(columns, name) < 0 || j < find_column(
                columns,
                name,
            )) implies columns[j].0 != name by {
            if j > 0 {
                assert(columns[j] == columns.skip(1)[j - 1]);
            }
        }
    }
}

/// The mathematical model of a [`Dataset`].
pub struct DatasetView {
    pub columns: Seq<(Seq<char>, ColumnType)>,
    pub rows: Seq<Seq<Value>>,
}

impl DatasetView {
    /// The dataset has a column named `name`.
    pub open spec fn has_column(self, name: Seq<char>) -> bool {
        find_column(self.columns, name) >= 0
    }

    /// The position of the first column named `name`.
    pub open spec fn column_index(self, name: Seq<char>) -> int {
        find_column(self.columns, name)
    }
}

/// A table: named, typed columns and rows of values, one per column.
#[derive(Debug)]
pub struct Dataset {
    columns: Vec<(String, ColumnType)>,
    rows: Vec<Row>,
}

impl View for Dataset {
    type V = DatasetView;

    closed spec fn view(&self) -> DatasetView {
        DatasetView {
            columns: columns_view(self.columns@),
            rows: self.rows@.map_values(|r: Row| r@),
        }
    }
}

/// A copy of a column list, with the same names and types.
pub fn copy_columns(columns: &Vec<(String, ColumnType)>) -> (res: Vec<(String, ColumnType)>)
    ensures
        columns_view(res@) == columns_view(columns@),
{
    let mut res: Vec<(String, ColumnType)> = Vec::new();
    let n = columns.len();
    for i in 0..n
        invariant
            n == columns@.len(),
            res@.len() == i,
            forall|j: int| 0 <= j < i ==> res@[j].0@ == columns@[j].0@ && res@[j].1 == columns@[j].1,
    {
        let name = columns[i].0.clone();
        let typ = columns[i].1;
        res.push((name, typ));
    }
    assert(columns_view(res@) =~= columns_view(columns@));
    res
}

impl Dataset {
    #[verifier::type_invariant]
    spec fn inv(self) -> bool {
        forall|i: int| 0 <= i < self.rows@.len() ==> #[trigger] self.rows@[i]@.len() == self.columns@.len()
    }

    /// Every row holds one value per column.
    pub open spec fn rows_fit(v: DatasetView) -> bool {
        forall|i: int| 0 <= i < v.rows.len() ==> #[trigger] v.rows[i].len() == v.columns.len()
    }

    /// An empty dataset with the given columns.
    pub fn new(columns: Vec<(String, ColumnType)>) -> (d: Dataset)
        ensures
            d@.columns == columns_view(columns@),
            d@.rows == Seq::<Seq<Value>>::empty(),
    {
        let d = Dataset { columns, rows: Vec::new() };
        assert(d@.rows =~= Seq::<Seq<Value>>::empty());
        d
    }

    /// The columns, in order.
    pub fn columns(&self) -> (c: &Vec<(String, ColumnType)>)
        ensures
            columns_view(c@) == self@.columns,
    {
        &self.columns
    }

    /// The number of rows.
    pub fn len(&self) -> (n: usize)
        ensures
            n == self@.rows.len(),
    {
        self.rows.len()
    }

    /// The row at position `i`, which holds one value per column.
    pub fn row(&self, i: usize) -> (r: &Row)
        requires
            i < self@.rows.len(),
        ensures
            r@ == self@.rows[i as int],
            r@.len() == self@.columns.len(),
    {
        proof {
            use_type_invariant(self);
        }
        &self.rows[i]
    }

    /// Appends a row, which must hold one value per column.
    pub fn add_row(&mut self, row: Row)
        requires
            row@.len() == old(self)@.columns.len(),
        ensures
            final(self)@.columns == old(self)@.columns,
            final(self)@.rows == old(self)@.rows.push(row@),
    {
        proof {
            use_type_invariant(&*self);
        }
        let mut rows: Vec<Row> = Vec::new();
        std::mem::swap(&mut rows, &mut self.rows);
        rows.push(row);
        self.rows = rows;
        assert(self@.rows =~= old(self)@.rows.push(row@));
    }

    /// The position of the first column named `name`; the column must exist.
    pub fn column_index(&self, name: &String) -> (idx: usize)
        requires
            self@.has_column(name@),
        ensures
            idx == self@.column_index(name@),
            idx < self@.columns.len(),
    {
        proof {
            lemma_find_column(self@.columns, name@);
        }
        let n = self.columns.len();
        let mut i: usize = 0;
        while i < n
            invariant
                n == self.columns@.len(),
                i <= n,
                self@.has_column(name@),
                find_column(self@.columns, name@) >= 0,
                i <= find_column(self@.columns, name@),
                -1 <= find_column(self@.columns, name@) < self@.columns.len(),
                find_column(self@.columns, name@) >= 0 ==> self@.columns[find_column(
                    self@.columns,
                    name@,
                )].0 == name@,
                forall|j: int|
                    0 <= j < self@.columns.len() && j < find_column(self@.columns, name@)
                        ==> self@.columns[j].0 != name@,
            decreases n - i,
        {
            if self.columns[i].0 == *name {
                assert(self@.columns[i as int].0 == name@);
                return i;
            }
            assert(self@.columns[i as int].0 != name@);
            i = i + 1;
        }
        0
    }

    /// The type of the first column named `name`; the column must exist.
    pub fn column_type(&self, name: &String) -> (t: &ColumnType)
        requires
            self@.has_column(name@),
        ensures
            *t == self@.columns[self@.column_index(name@)].1,
    {
        let i = self.column_index(name);
        &self.columns[i].1
    }
}

} // verus!
