//! Rows and columns: a table's data row by row, as it is stored, and
//! column by column, as a kernel works on it.

use crate::kernel::{has_column, is_numeric_column, names_of};
use crate::types::{
    last_field, row_get, rows_view, values_view, ColumnMap, ColumnMapSpec, ColumnSpec, Row, RowSpec,
    TableDefinition, Value, ValueSpec,
};
use vstd::prelude::*;

verus! {

/// The values that the rows hold under `name`, in the order of the rows.
/// A row without such a field gives none.
pub open spec fn column_values(rows: Seq<RowSpec>, name: Seq<char>) -> Seq<ValueSpec>
    decreases rows.len(),
{
    if rows.len() == 0 {
        Seq::empty()
    } else {
        let before = column_values(rows.drop_last(), name);
        match row_get(rows.last(), name) {
            Some(v) => before.push(v),
            None => before,
        }
    }
}

/// The column map of the first `n` columns of the table: for each name of
/// a numeric column, where it first stands among the columns and some row
/// has a value under it, the values under that name.
pub open spec fn project(columns: Seq<ColumnSpec>, rows: Seq<RowSpec>, n: int) -> ColumnMapSpec
    decreases n,
{
    if n <= 0 {
        Seq::empty()
    } else {
        let done = project(columns, rows, n - 1);
        let name = columns[n - 1].name;
        let values = column_values(rows, name);
        if is_numeric_column(columns, name) && !names_of(done).contains(name) && values.len() > 0 {
            done.push((name, values))
        } else {
            done
        }
    }
}

/// Every column of a projection is a numeric column of the table, no name
/// stands in it twice, and each of its columns has a value.
pub proof fn lemma_project(columns: Seq<ColumnSpec>, rows: Seq<RowSpec>, n: int)
    requires
        n <= columns.len(),
    ensures
        forall|k: int|
            0 <= k < project(columns, rows, n).len() ==> {
                &&& is_numeric_column(columns, (#[trigger] project(columns, rows, n)[k]).0)
                &&& project(columns, rows, n)[k].1 == column_values(
                    rows,
                    project(columns, rows, n)[k].0,
                )
                &&& project(columns, rows, n)[k].1.len() > 0
            },
        forall|j: int, k: int|
            0 <= j < k < project(columns, rows, n).len() ==> (#[trigger] project(
                columns,
                rows,
                n,
            )[j]).0 != (#[trigger] project(columns, rows, n)[k]).0,
    decreases n,
{
    if n > 0 {
        lemma_project(columns, rows, n - 1);
        let done = project(columns, rows, n - 1);
        let all = project(columns, rows, n);
        let name = columns[n - 1].name;
        if all.len() > done.len() {
            assert(all =~= done.push((name, column_values(rows, name))));
            assert forall|j: int, k: int| 0 <= j < k < all.len() implies (#[trigger] all[j]).0 != (
            #[trigger] all[k]).0 by {
                if k == done.len() {
                    assert(names_of(done)[j] == done[j].0);
                }
            }
        }
    }
}

/// A row of the table has a value under the name of each of the table's
/// columns.
pub proof fn lemma_row_has_columns(row: RowSpec, columns: Seq<ColumnSpec>, j: int)
    requires
        row.len() == columns.len(),
        forall|i: int| 0 <= i < row.len() ==> (#[trigger] row[i]).0 == columns[i].name,
        0 <= j < columns.len(),
    ensures
        row_get(row, columns[j].name) is Some,
    decreases row.len(),
{
    if row.last().0 != columns[j].name {
        let front = row.drop_last();
        assert forall|i: int| 0 <= i < front.len() implies (#[trigger] front[i]).0
            == columns.drop_last()[i].name by {
            assert(front[i] == row[i]);
        }
        assert(j < front.len()) by {
            if j == row.len() - 1 {
                assert(row[j].0 == columns[j].name);
            }
        }
        lemma_row_has_columns(front, columns.drop_last(), j);
    }
}

/// Rows that each have a value under `name` give as many values as there
/// are rows.
pub proof fn lemma_column_values_len(rows: Seq<RowSpec>, name: Seq<char>)
    requires
        forall|r: int| 0 <= r < rows.len() ==> row_get(#[trigger] rows[r], name) is Some,
    ensures
        column_values(rows, name).len() == rows.len(),
    decreases rows.len(),
{
    if rows.len() > 0 {
        let front = rows.drop_last();
        assert forall|r: int| 0 <= r < front.len() implies row_get(#[trigger] front[r], name)
            is Some by {
            assert(front[r] == rows[r]);
        }
        lemma_column_values_len(front, name);
    }
}

/// The projection of rows of the table has a value from every row in each
/// of its columns.
pub proof fn lemma_project_rectangular(columns: Seq<ColumnSpec>, rows: Seq<RowSpec>)
    requires
        forall|r: int|
            0 <= r < rows.len() ==> (#[trigger] rows[r]).len() == columns.len() && forall|i: int|
                0 <= i < columns.len() ==> (#[trigger] rows[r][i]).0 == columns[i].name,
    ensures
        rectangular(project(columns, rows, columns.len() as int)),
        project(columns, rows, columns.len() as int).len() > 0 ==> row_count(
            project(columns, rows, columns.len() as int),
        ) == rows.len(),
{
    let map = project(columns, rows, columns.len() as int);
    lemma_project(columns, rows, columns.len() as int);
    assert forall|k: int| 0 <= k < map.len() implies (#[trigger] map[k]).1.len()
        == rows.len() by {
        let name = map[k].0;
        lemma_projected_name(columns, rows, columns.len() as int, k);
        let j = choose|j: int| 0 <= j < columns.len() && columns[j].name == name;
        assert forall|r: int| 0 <= r < rows.len() implies row_get(#[trigger] rows[r], name)
            is Some by {
            lemma_row_has_columns(rows[r], columns, j);
        }
        lemma_column_values_len(rows, name);
    }
}

/// Every column of a projection has the name of a column of the table.
pub proof fn lemma_projected_name(columns: Seq<ColumnSpec>, rows: Seq<RowSpec>, n: int, k: int)
    requires
        n <= columns.len(),
        0 <= k < project(columns, rows, n).len(),
    ensures
        exists|j: int| 0 <= j < columns.len() && columns[j].name == project(columns, rows, n)[k].0,
    decreases n,
{
    if n > 0 {
        let done = project(columns, rows, n - 1);
        if k < done.len() {
            lemma_projected_name(columns, rows, n - 1, k);
            assert(project(columns, rows, n)[k] == done[k]);
        } else {
            assert(project(columns, rows, n)[k].0 == columns[n - 1].name);
        }
    }
}

/// The values that `rows` hold under `name`, as [`column_values`] says.
pub fn values_under(rows: &Vec<Row>, name: &str) -> (r: Vec<Value>)
    ensures
        values_view(r@) == column_values(rows_view(rows@), name@),
{
    let ghost all = rows_view(rows@);
    let mut r: Vec<Value> = Vec::new();
    let mut i: usize = 0;
    assert(values_view(r@) =~= column_values(all.take(0), name@));
    while i < rows.len()
        invariant
            i <= rows.len(),
            all == rows_view(rows@),
            values_view(r@) == column_values(all.take(i as int), name@),
        decreases rows.len() - i,
    {
        let ghost before = values_view(r@);
        assert(all.take(i + 1).drop_last() =~= all.take(i as int));
        assert(all.take(i + 1).last() == rows@[i as int]@);
        match rows[i].get(name) {
            Some(v) => {
                r.push(v.clone());
                assert(values_view(r@) =~= before.push(v@));
            },
            None => {},
        }
        i = i + 1;
    }
    assert(all.take(rows.len() as int) =~= all);
    r
}

/// Projects `rows` to the numeric columns of `table`: the column map that
/// [`project`] gives for all of the table's columns. Every column of the
/// result is a numeric column of the table, and no name stands in it
/// twice.
pub fn project_numeric(table: &TableDefinition, rows: &Vec<Row>) -> (map: ColumnMap)
    ensures
        map@ == project(table@.columns, rows_view(rows@), table@.columns.len() as int),
        forall|k: int| 0 <= k < map@.len() ==> is_numeric_column(table@.columns, (#[trigger] map@[k]).0),
{
    let ghost columns = table@.columns;
    let ghost all = rows_view(rows@);
    let mut map = ColumnMap { columns: Vec::new() };
    let mut j: usize = 0;
    assert(map@ =~= project(columns, all, 0));
    while j < table.columns.len()
        invariant
            j <= table.columns.len(),
            columns == table@.columns,
            all == rows_view(rows@),
            map@ == project(columns, all, j as int),
            forall|k: int| 0 <= k < map@.len() ==> is_numeric_column(columns, (#[trigger] map@[k]).0),
        decreases table.columns.len() - j,
    {
        let ghost done = map@;
        let name = table.columns[j].name.as_str();
        assert(columns[j as int] == table.columns@[j as int]@);
        let numeric = match table.column_type(name) {
            Some(t) => t.numeric(),
            None => false,
        };
        if numeric && !has_column(&map, name) {
            let values = values_under(rows, name);
            if values.len() > 0 {
                let ghost v = values_view(values@);
                map.columns.push((table.columns[j].name.clone(), values));
                assert(map@ =~= done.push((name@, v)));
            }
        }
        j = j + 1;
    }
    map
}

/// Whether every column of the map has as many values as the first.
pub open spec fn rectangular(map: ColumnMapSpec) -> bool {
    forall|k: int| 0 <= k < map.len() ==> (#[trigger] map[k]).1.len() == map[0].1.len()
}

/// The number of rows of a column map: the length of its first column.
pub open spec fn row_count(map: ColumnMapSpec) -> nat {
    if map.len() == 0 {
        0
    } else {
        map[0].1.len()
    }
}

/// Row `i` of a column map: each column's name with its value at `i`, in
/// the order of the columns.
pub open spec fn row_at(map: ColumnMapSpec, i: int) -> RowSpec {
    map.map_values(|c: (Seq<char>, Seq<ValueSpec>)| (c.0, c.1[i]))
}

/// The rows of a column map, in order.
pub open spec fn rows_of(map: ColumnMapSpec) -> Seq<RowSpec> {
    Seq::new(row_count(map), |i: int| row_at(map, i))
}

/// Executable form of [`rectangular`].
pub fn is_rectangular(map: &ColumnMap) -> (b: bool)
    ensures
        b == rectangular(map@),
{
    let mut k: usize = 0;
    while k < map.columns.len()
        invariant
            k <= map.columns.len(),
            forall|i: int| 0 <= i < k ==> (#[trigger] map@[i]).1.len() == map@[0].1.len(),
        decreases map.columns.len() - k,
    {
        if map.columns[k].1.len() != map.columns[0].1.len() {
            assert(map@[k as int].1.len() != map@[0].1.len());
            return false;
        }
        k = k + 1;
    }
    true
}

/// Turns a column map into rows: as many as the first column has values,
/// row `i` holding each column's value at `i` under the column's name.
/// The columns must all be of one length.
pub fn reconstruct_rows(column_map: &ColumnMap) -> (rows: Vec<Row>)
    requires
        rectangular(column_map@),
    ensures
        rows_view(rows@) == rows_of(column_map@),
{
    let ghost map = column_map@;
    let mut rows: Vec<Row> = Vec::new();
    if column_map.columns.len() == 0 {
        assert(rows_view(rows@) =~= rows_of(map));
        return rows;
    }
    let count: usize = column_map.columns[0].1.len();
    let mut i: usize = 0;
    while i < count
        invariant
            i <= count,
            map == column_map@,
            map.len() > 0,
            count == map[0].1.len(),
            rectangular(map),
            rows@.len() == i,
            forall|r: int| 0 <= r < i ==> (#[trigger] rows@[r])@ == row_at(map, r),
        decreases count - i,
    {
        let mut fields: Vec<(String, Value)> = Vec::new();
        let mut k: usize = 0;
        while k < column_map.columns.len()
            invariant
                k <= column_map.columns.len(),
                i < count,
                map == column_map@,
                map.len() > 0,
                count == map[0].1.len(),
                rectangular(map),
                fields@.len() == k,
                forall|c: int|
                    0 <= c < k ==> (#[trigger] fields@[c]).0@ == map[c].0 && fields@[c].1@
                        == map[c].1[i as int],
            decreases column_map.columns.len() - k,
        {
            assert(map[k as int].1.len() == count);
            assert(map[k as int].1 == values_view(column_map.columns@[k as int].1@));
            let column = &column_map.columns[k];
            fields.push((column.0.clone(), column.1[i].clone()));
            k = k + 1;
        }
        let row = Row { fields };
        assert(row@ =~= row_at(map, i as int));
        rows.push(row);
        i = i + 1;
    }
    assert(rows_view(rows@) =~= rows_of(map));
    rows
}

/// `row` with `value` under `name`: in the place of the value that the row
/// held under that name, or as a new last field where it held none.
pub open spec fn row_insert(row: RowSpec, name: Seq<char>, value: ValueSpec) -> RowSpec {
    match last_field(row, name) {
        Some(i) => row.update(i, (name, value)),
        None => row.push((name, value)),
    }
}

/// `row` after the first `n` fields of `update` have been put into it, in
/// order.
pub open spec fn row_merge(row: RowSpec, update: RowSpec, n: int) -> RowSpec
    decreases n,
{
    if n <= 0 {
        row
    } else {
        row_insert(row_merge(row, update, n - 1), update[n - 1].0, update[n - 1].1)
    }
}

/// The existing rows, each with the fields of the update at its index, if
/// there is one, put into it.
pub open spec fn merged(existing: Seq<RowSpec>, updates: Seq<RowSpec>) -> Seq<RowSpec> {
    Seq::new(
        existing.len(),
        |i: int|
            if i < updates.len() {
                row_merge(existing[i], updates[i], updates[i].len() as int)
            } else {
                existing[i]
            },
    )
}

impl Row {
    /// Puts `value` under `name`, as [`row_insert`] says.
    pub fn insert(&mut self, name: String, value: Value)
        ensures
            final(self)@ == row_insert(old(self)@, name@, value@),
    {
        let ghost before = self@;
        match self.position(name.as_str()) {
            Some(i) => {
                self.fields.set(i, (name, value));
                assert(self@ =~= before.update(i as int, (name@, value@)));
                return ;
            },
            None => {},
        }
        self.fields.push((name, value));
        assert(self@ =~= before.push((name@, value@)));
    }
}

/// Puts the updates into the existing rows, index by index: a row that
/// has an update at its index takes each of the update's fields, and the
/// other rows stay as they are.
pub fn update_rows(existing_rows: &Vec<Row>, updates: &Vec<Row>) -> (rows: Vec<Row>)
    ensures
        rows_view(rows@) == merged(rows_view(existing_rows@), rows_view(updates@)),
{
    let ghost old_rows = rows_view(existing_rows@);
    let ghost new_rows = rows_view(updates@);
    let mut rows: Vec<Row> = Vec::new();
    let mut i: usize = 0;
    while i < existing_rows.len()
        invariant
            i <= existing_rows.len(),
            old_rows == rows_view(existing_rows@),
            new_rows == rows_view(updates@),
            rows@.len() == i,
            forall|r: int| 0 <= r < i ==> (#[trigger] rows@[r])@ == merged(old_rows, new_rows)[r],
        decreases existing_rows.len() - i,
    {
        let mut row = existing_rows[i].clone();
        if i < updates.len() {
            let update = &updates[i];
            let mut k: usize = 0;
            while k < update.fields.len()
                invariant
                    k <= update.fields.len(),
                    row@ == row_merge(old_rows[i as int], update@, k as int),
                decreases update.fields.len() - k,
            {
                row.insert(update.fields[k].0.clone(), update.fields[k].1.clone());
                k = k + 1;
            }
            assert(update@ == new_rows[i as int]);
        }
        rows.push(row);
        i = i + 1;
    }
    assert(rows_view(rows@) =~= merged(old_rows, new_rows));
    rows
}

} // verus!
