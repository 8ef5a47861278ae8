//! The data model: schemas, statements, values and rows, each with the
//! mathematical view that the contracts of this crate speak of.

use vstd::prelude::*;

verus! {

/// The declared type of a column.
#[derive(Clone, Copy, Debug, PartialEq, Eq, Structural)]
pub enum DataType {
    Integer,
    Float,
    Text,
    Boolean,
}

impl DataType {
    /// Whether a column of this type can be bound to a kernel.
    pub open spec fn is_numeric(self) -> bool {
        self == DataType::Integer || self == DataType::Float
    }

    /// Executable form of [`DataType::is_numeric`].
    pub fn numeric(&self) -> (b: bool)
        ensures
            b == self.is_numeric(),
    {
        match self {
            DataType::Integer => true,
            DataType::Float => true,
            DataType::Text => false,
            DataType::Boolean => false,
        }
    }
}

/// View of a [`ColumnDefinition`].
pub struct ColumnSpec {
    pub name: Seq<char>,
    pub data_type: DataType,
    pub nullable: bool,
    pub unique: bool,
}

/// One column of a table: its name, its type and two flags that are kept as
/// metadata.
#[derive(Debug)]
pub struct ColumnDefinition {
    pub name: String,
    pub data_type: DataType,
    pub nullable: bool,
    pub unique: bool,
}

impl View for ColumnDefinition {
    type V = ColumnSpec;

    open spec fn view(&self) -> ColumnSpec {
        ColumnSpec {
            name: self.name@,
            data_type: self.data_type,
            nullable: self.nullable,
            unique: self.unique,
        }
    }
}

impl PartialEq for ColumnDefinition {
    fn eq(&self, other: &Self) -> (r: bool) {
        self.name == other.name && self.data_type == other.data_type && self.nullable
            == other.nullable && self.unique == other.unique
    }
}

impl vstd::std_specs::cmp::PartialEqSpecImpl for ColumnDefinition {
    open spec fn obeys_eq_spec() -> bool {
        true
    }

    open spec fn eq_spec(&self, other: &Self) -> bool {
        self@ == other@
    }
}

impl Clone for ColumnDefinition {
    fn clone(&self) -> (c: Self)
        ensures
            c@ == self@,
    {
        ColumnDefinition {
            name: self.name.clone(),
            data_type: self.data_type,
            nullable: self.nullable,
            unique: self.unique,
        }
    }
}

/// View of a [`TableDefinition`].
pub struct TableSpec {
    pub name: Seq<char>,
    pub columns: Seq<ColumnSpec>,
}

/// A table's schema. The order of the columns is the order in which a row's
/// fields are stored.
#[derive(Debug)]
pub struct TableDefinition {
    pub name: String,
    pub columns: Vec<ColumnDefinition>,
}

impl View for TableDefinition {
    type V = TableSpec;

    open spec fn view(&self) -> TableSpec {
        TableSpec { name: self.name@, columns: self.columns@.map_values(|c: ColumnDefinition| c@) }
    }
}

impl PartialEq for TableDefinition {
    fn eq(&self, other: &Self) -> (r: bool) {
        if !(self.name == other.name) {
            return false;
        }
        if self.columns.len() != other.columns.len() {
            assert(self@.columns.len() != other@.columns.len());
            return false;
        }
        let mut i: usize = 0;
        while i < self.columns.len()
            invariant
                i <= self.columns.len(),
                self.columns.len() == other.columns.len(),
                self.name@ == other.name@,
                forall|j: int| 0 <= j < i ==> self.columns@[j]@ == other.columns@[j]@,
            decreases self.columns.len() - i,
        {
            if !(self.columns[i] == other.columns[i]) {
                assert(self@.columns[i as int] != other@.columns[i as int]);
                return false;
            }
            i = i + 1;
        }
        assert(self@.columns =~= other@.columns);
        true
    }
}

impl vstd::std_specs::cmp::PartialEqSpecImpl for TableDefinition {
    open spec fn obeys_eq_spec() -> bool {
        true
    }

    open spec fn eq_spec(&self, other: &Self) -> bool {
        self@ == other@
    }
}

impl Default for TableDefinition {
    fn default() -> (t: Self)
        ensures
            t@.name.len() == 0,
            t@.columns.len() == 0,
    {
        TableDefinition { name: String::new(), columns: Vec::new() }
    }
}

impl Clone for TableDefinition {
    fn clone(&self) -> (t: Self)
        ensures
            t@ == self@,
    {
        let mut columns: Vec<ColumnDefinition> = Vec::new();
        let mut i: usize = 0;
        while i < self.columns.len()
            invariant
                i <= self.columns.len(),
                columns@.len() == i,
                forall|j: int| 0 <= j < i ==> columns@[j]@ == self.columns@[j]@,
            decreases self.columns.len() - i,
        {
            columns.push(self.columns[i].clone());
            i = i + 1;
        }
        let t = TableDefinition { name: self.name.clone(), columns };
        assert(t@.columns =~= self@.columns);
        t
    }
}

/// The views of a sequence of strings.
pub open spec fn texts(v: Seq<String>) -> Seq<Seq<char>> {
    v.map_values(|s: String| s@)
}

/// The kinds of failure that statements report.
#[derive(Clone, Copy, Debug, PartialEq, Eq, Structural)]
pub enum ErrorKind {
    /// Stored bytes are not what the format asks for.
    InvalidData,
    /// A statement's values do not fit the table.
    InvalidInput,
    /// Stored bytes end inside a frame.
    UnexpectedEof,
}

/// An `INSERT INTO` statement: the table's name and the literal values, one
/// per column, as they were written. `table_definition` is filled in when
/// the statement is validated.
#[derive(Debug)]
pub struct InsertDefinition {
    pub name: String,
    pub table_definition: TableDefinition,
    pub values: Vec<String>,
}

/// View of an [`InsertDefinition`].
pub struct InsertSpec {
    pub name: Seq<char>,
    pub table_definition: TableSpec,
    pub values: Seq<Seq<char>>,
}

impl View for InsertDefinition {
    type V = InsertSpec;

    open spec fn view(&self) -> InsertSpec {
        InsertSpec {
            name: self.name@,
            table_definition: self.table_definition@,
            values: texts(self.values@),
        }
    }
}

/// A `DROP TABLE` statement.
#[derive(Debug)]
pub struct DropDefinition {
    pub table_name: String,
}

/// One comparison of a `WHERE` clause.
#[derive(Debug)]
pub struct CriteriaDefinition {
    pub criteria_type: String,
    pub column_name: String,
    pub value: String,
}

/// A `SELECT` statement: the table's name and its conditions, each a
/// column, an operator and a literal.
#[derive(Debug)]
pub struct SelectDefinition {
    pub table_name: String,
    pub criteria: Vec<(String, String, String)>,
}

/// View of a [`SelectDefinition`].
pub struct SelectSpec {
    pub table_name: Seq<char>,
    pub criteria: Seq<(Seq<char>, Seq<char>, Seq<char>)>,
}

/// The views of a list of conditions.
pub open spec fn criteria_view(c: Seq<(String, String, String)>) -> Seq<
    (Seq<char>, Seq<char>, Seq<char>),
> {
    c.map_values(|t: (String, String, String)| (t.0@, t.1@, t.2@))
}

impl View for SelectDefinition {
    type V = SelectSpec;

    open spec fn view(&self) -> SelectSpec {
        SelectSpec { table_name: self.table_name@, criteria: criteria_view(self.criteria@) }
    }
}

/// An `UPDATE` statement: the table's name and the text after `SET`.
#[derive(Debug)]
pub struct UpdateDefinition {
    pub table_name: String,
    pub set_query: String,
}

/// View of an [`UpdateDefinition`].
pub struct UpdateSpec {
    pub table_name: Seq<char>,
    pub set_query: Seq<char>,
}

impl View for UpdateDefinition {
    type V = UpdateSpec;

    open spec fn view(&self) -> UpdateSpec {
        UpdateSpec { table_name: self.table_name@, set_query: self.set_query@ }
    }
}

/// A stored value. A `Float` holds the bit pattern of a 32-bit IEEE-754
/// number; this crate stores and moves such numbers and never computes with
/// them.
#[derive(Debug)]
pub enum Value {
    Integer(i32),
    Float(u32),
    Text(String),
    Boolean(bool),
}

/// View of a [`Value`].
pub enum ValueSpec {
    Integer(i32),
    Float(u32),
    Text(Seq<char>),
    Boolean(bool),
}

impl ValueSpec {
    /// The type of column that holds such a value.
    pub open spec fn data_type(self) -> DataType {
        match self {
            ValueSpec::Integer(_) => DataType::Integer,
            ValueSpec::Float(_) => DataType::Float,
            ValueSpec::Text(_) => DataType::Text,
            ValueSpec::Boolean(_) => DataType::Boolean,
        }
    }
}

impl View for Value {
    type V = ValueSpec;

    open spec fn view(&self) -> ValueSpec {
        match self {
            Value::Integer(i) => ValueSpec::Integer(*i),
            Value::Float(b) => ValueSpec::Float(*b),
            Value::Text(s) => ValueSpec::Text(s@),
            Value::Boolean(b) => ValueSpec::Boolean(*b),
        }
    }
}

impl PartialEq for Value {
    fn eq(&self, other: &Self) -> (r: bool) {
        match (self, other) {
            (Value::Integer(a), Value::Integer(b)) => *a == *b,
            (Value::Float(a), Value::Float(b)) => *a == *b,
            (Value::Text(a), Value::Text(b)) => *a == *b,
            (Value::Boolean(a), Value::Boolean(b)) => *a == *b,
            _ => false,
        }
    }
}

impl vstd::std_specs::cmp::PartialEqSpecImpl for Value {
    open spec fn obeys_eq_spec() -> bool {
        true
    }

    open spec fn eq_spec(&self, other: &Self) -> bool {
        self@ == other@
    }
}

impl Clone for Value {
    fn clone(&self) -> (c: Self)
        ensures
            c@ == self@,
    {
        match self {
            Value::Integer(i) => Value::Integer(*i),
            Value::Float(b) => Value::Float(*b),
            Value::Text(s) => Value::Text(s.clone()),
            Value::Boolean(b) => Value::Boolean(*b),
        }
    }
}

impl Value {
    /// The type of column that holds this value.
    pub fn data_type(&self) -> (t: DataType)
        ensures
            t == self@.data_type(),
    {
        match self {
            Value::Integer(_) => DataType::Integer,
            Value::Float(_) => DataType::Float,
            Value::Text(_) => DataType::Text,
            Value::Boolean(_) => DataType::Boolean,
        }
    }
}

/// View of a [`Row`]: the fields' names and values, in order.
pub type RowSpec = Seq<(Seq<char>, ValueSpec)>;

/// The index of the last field of `row` named `name`.
pub open spec fn last_field(row: RowSpec, name: Seq<char>) -> Option<int>
    decreases row.len(),
{
    if row.len() == 0 {
        None
    } else if row.last().0 == name {
        Some(row.len() - 1)
    } else {
        last_field(row.drop_last(), name)
    }
}

/// The value that `row` holds under `name`: that of the last field so
/// named.
pub open spec fn row_get(row: RowSpec, name: Seq<char>) -> Option<ValueSpec> {
    match last_field(row, name) {
        Some(i) => Some(row[i].1),
        None => None,
    }
}

/// One row of a table: a value for each column, under the column's name
/// and in the columns' order.
#[derive(Debug)]
pub struct Row {
    pub fields: Vec<(String, Value)>,
}

impl View for Row {
    type V = RowSpec;

    open spec fn view(&self) -> RowSpec {
        self.fields@.map_values(|f: (String, Value)| (f.0@, f.1@))
    }
}

impl PartialEq for Row {
    fn eq(&self, other: &Self) -> (r: bool) {
        if self.fields.len() != other.fields.len() {
            assert(self@.len() != other@.len());
            return false;
        }
        let mut i: usize = 0;
        while i < self.fields.len()
            invariant
                i <= self.fields.len(),
                self.fields.len() == other.fields.len(),
                forall|j: int| 0 <= j < i ==> self@[j] == other@[j],
            decreases self.fields.len() - i,
        {
            if !(self.fields[i].0 == other.fields[i].0 && self.fields[i].1 == other.fields[i].1) {
                assert(self@[i as int] != other@[i as int]);
                return false;
            }
            i = i + 1;
        }
        assert(self@ =~= other@);
        true
    }
}

impl vstd::std_specs::cmp::PartialEqSpecImpl for Row {
    open spec fn obeys_eq_spec() -> bool {
        true
    }

    open spec fn eq_spec(&self, other: &Self) -> bool {
        self@ == other@
    }
}

impl Clone for Row {
    fn clone(&self) -> (r: Self)
        ensures
            r@ == self@,
    {
        let mut fields: Vec<(String, Value)> = Vec::new();
        let mut i: usize = 0;
        while i < self.fields.len()
            invariant
                i <= self.fields.len(),
                fields@.len() == i,
                forall|j: int|
                    0 <= j < i ==> fields@[j].0@ == self.fields@[j].0@ && fields@[j].1@
                        == self.fields@[j].1@,
            decreases self.fields.len() - i,
        {
            fields.push((self.fields[i].0.clone(), self.fields[i].1.clone()));
            i = i + 1;
        }
        let r = Row { fields };
        assert(r@ =~= self@);
        r
    }
}

impl Row {
    /// A row without fields.
    pub fn new() -> (r: Self)
        ensures
            r@.len() == 0,
    {
        Row { fields: Vec::new() }
    }

    /// The index of the last field named `name`, if there is one.
    pub fn position(&self, name: &str) -> (r: Option<usize>)
        ensures
            match r {
                Some(i) => last_field(self@, name@) == Some(i as int) && i < self@.len(),
                None => last_field(self@, name@) is None,
            },
    {
        let mut hi: usize = self.fields.len();
        assert(self@.take(hi as int) =~= self@);
        while hi > 0
            invariant
                hi <= self.fields.len(),
                last_field(self@, name@) == last_field(self@.take(hi as int), name@),
            decreases hi,
        {
            if crate::text::same_str(self.fields[hi - 1].0.as_str(), name) {
                assert(self@.take(hi as int).last() == self@[hi - 1]);
                return Some(hi - 1);
            }
            assert(self@.take(hi as int).drop_last() =~= self@.take(hi - 1));
            hi = hi - 1;
        }
        None
    }

    /// The value under `name`, if the row has one.
    pub fn get(&self, name: &str) -> (r: Option<&Value>)
        ensures
            match r {
                Some(v) => row_get(self@, name@) == Some(v@),
                None => row_get(self@, name@) is None,
            },
    {
        match self.position(name) {
            Some(i) => Some(&self.fields[i].1),
            None => None,
        }
    }
}

/// View of the views of a sequence of rows.
pub open spec fn rows_view(rows: Seq<Row>) -> Seq<RowSpec> {
    rows.map_values(|r: Row| r@)
}

/// View of the views of a sequence of values.
pub open spec fn values_view(values: Seq<Value>) -> Seq<ValueSpec> {
    values.map_values(|v: Value| v@)
}

/// View of a [`ColumnMap`]: each column's name and its values, row by row.
pub type ColumnMapSpec = Seq<(Seq<char>, Seq<ValueSpec>)>;

/// A table's data by column: each column's name with its values in row
/// order. The order of the columns is the order of their kernel bindings.
#[derive(Debug)]
pub struct ColumnMap {
    pub columns: Vec<(String, Vec<Value>)>,
}

impl View for ColumnMap {
    type V = ColumnMapSpec;

    open spec fn view(&self) -> ColumnMapSpec {
        self.columns@.map_values(|c: (String, Vec<Value>)| (c.0@, values_view(c.1@)))
    }
}

} // verus!
