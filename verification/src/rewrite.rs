//! The end of an update: what was read back from the device is put into
//! the table's rows, and the rows are written as the table's new data.

use crate::codec::{encode_value, lemma_le_bytes_len, storable};
use crate::columns::{
    is_rectangular, merged, reconstruct_rows, rectangular, row_at, row_count, row_insert,
    row_merge, rows_of, update_rows,
};
use crate::executor::{collected, outputs_view, value_of, ShaderExecutor};
use crate::kernel::{column_type, is_numeric_column};
use crate::rowlog::{conforms, encode_fields, encode_rows, lemma_scan_log, log_of, scan};
use crate::types::{
    last_field, rows_view, texts, ColumnSpec, ErrorKind, Row, RowSpec, TableDefinition, TableSpec,
    ValueSpec,
};
use vstd::prelude::*;

verus! {

/// The rows of a table after an update: each row with the values that
/// were read back for it put in the place of those it held under the same
/// names. Fields of columns that were not read back stay as they were.
pub open spec fn updated(
    table: TableSpec,
    rows: Seq<RowSpec>,
    keys: Seq<Seq<char>>,
    outputs: Seq<Seq<u32>>,
) -> Seq<RowSpec> {
    merged(rows, rows_of(collected(table.columns, keys, outputs)))
}

/// Whether what was read back can be put into rows: every output has as
/// many words as the first.
pub fn can_rewrite(table: &TableDefinition, keys: &Vec<String>, outputs: &Vec<Vec<u32>>) -> (b: bool)
    ensures
        b == rectangular(collected(table@.columns, texts(keys@), outputs_view(outputs@))),
{
    let executor = ShaderExecutor;
    let map = executor.collect(table, keys, outputs);
    is_rectangular(&map)
}

/// The rows of the table after an update, as [`updated`] says.
pub fn updated_rows(
    table: &TableDefinition,
    rows: &Vec<Row>,
    keys: &Vec<String>,
    outputs: &Vec<Vec<u32>>,
) -> (new_rows: Vec<Row>)
    requires
        rectangular(collected(table@.columns, texts(keys@), outputs_view(outputs@))),
    ensures
        rows_view(new_rows@) == updated(
            table@,
            rows_view(rows@),
            texts(keys@),
            outputs_view(outputs@),
        ),
{
    let executor = ShaderExecutor;
    let map = executor.collect(table, keys, outputs);
    let read_back = reconstruct_rows(&map);
    update_rows(rows, &read_back)
}

/// The table's data after an update: the log of the rows that [`updated`]
/// gives, in the order of the rows.
pub fn rewrite(
    table: &TableDefinition,
    rows: &Vec<Row>,
    keys: &Vec<String>,
    outputs: &Vec<Vec<u32>>,
) -> (log: Vec<u8>)
    requires
        rectangular(collected(table@.columns, texts(keys@), outputs_view(outputs@))),
    ensures
        log@ == log_of(
            updated(table@, rows_view(rows@), texts(keys@), outputs_view(outputs@)),
        ),
{
    let new_rows = updated_rows(table, rows, keys, outputs);
    encode_rows(&new_rows)
}

/// Whether no two of the columns have the same name.
pub open spec fn distinct_names(columns: Seq<ColumnSpec>) -> bool {
    forall|i: int, j: int|
        0 <= i < j < columns.len() ==> (#[trigger] columns[i]).name != (#[trigger] columns[j]).name
}

/// A column that has a type by its name stands among the columns, with
/// that type.
pub proof fn lemma_column_of_type(columns: Seq<ColumnSpec>, name: Seq<char>) -> (i: int)
    requires
        column_type(columns, name) is Some,
    ensures
        0 <= i < columns.len(),
        columns[i].name == name,
        columns[i].data_type == column_type(columns, name)->0,
    decreases columns.len(),
{
    if columns[0].name == name {
        0
    } else {
        let j = lemma_column_of_type(columns.skip(1), name);
        assert(columns.skip(1)[j] == columns[j + 1]);
        j + 1
    }
}

/// The one field of a name is the last field of that name.
pub proof fn lemma_only_field(row: RowSpec, name: Seq<char>, i: int)
    requires
        0 <= i < row.len(),
        row[i].0 == name,
        forall|j: int| 0 <= j < row.len() && j != i ==> (#[trigger] row[j]).0 != name,
    ensures
        last_field(row, name) == Some(i),
    decreases row.len(),
{
    if i < row.len() - 1 {
        let front = row.drop_last();
        assert(row.last() == row[row.len() - 1]);
        assert forall|j: int| 0 <= j < front.len() && j != i implies (#[trigger] front[j]).0
            != name by {
            assert(front[j] == row[j]);
        }
        assert(front[i] == row[i]);
        lemma_only_field(front, name, i);
    }
}

/// A value of a numeric type is stored in four bytes.
pub proof fn lemma_numeric_width(v: ValueSpec)
    requires
        v.data_type().is_numeric(),
    ensures
        encode_value(v).len() == 4,
        storable(v),
{
    match v {
        ValueSpec::Integer(i) => {
            lemma_le_bytes_len(crate::codec::int_bits(i), 4);
        },
        ValueSpec::Float(bits) => {
            lemma_le_bytes_len(bits as nat, 4);
        },
        _ => {},
    }
}

/// A field that gives way to one of the same width leaves the payload as
/// long as it was.
pub proof fn lemma_update_keeps_length(row: RowSpec, i: int, field: (Seq<char>, ValueSpec))
    requires
        0 <= i < row.len(),
        encode_value(field.1).len() == encode_value(row[i].1).len(),
    ensures
        encode_fields(row.update(i, field)).len() == encode_fields(row).len(),
    decreases row.len(),
{
    let new = row.update(i, field);
    if i == 0 {
        assert(new.skip(1) =~= row.skip(1));
    } else {
        lemma_update_keeps_length(row.skip(1), i - 1, field);
        assert(new.skip(1) =~= row.skip(1).update(i - 1, field));
        assert(new[0] == row[0]);
    }
}

/// A row of the table with a value of a numeric column's type put under
/// that column's name is a row of the table.
pub proof fn lemma_insert_conforms(
    row: RowSpec,
    columns: Seq<ColumnSpec>,
    name: Seq<char>,
    word: u32,
)
    requires
        conforms(row, columns),
        distinct_names(columns),
        is_numeric_column(columns, name),
    ensures
        conforms(row_insert(row, name, value_of(column_type(columns, name), word)), columns),
{
    let i = lemma_column_of_type(columns, name);
    let v = value_of(column_type(columns, name), word);
    assert(v.data_type() == columns[i].data_type);
    assert forall|j: int| 0 <= j < row.len() && j != i implies (#[trigger] row[j]).0 != name by {
        assert(row[j].0 == columns[j].name);
        if j < i {
            assert(columns[j].name != columns[i].name);
        } else {
            assert(columns[i].name != columns[j].name);
        }
    }
    assert(row[i].0 == columns[i].name);
    lemma_only_field(row, name, i);
    let new = row.update(i, (name, v));
    assert(row_insert(row, name, v) == new);
    lemma_numeric_width(v);
    lemma_numeric_width(row[i].1);
    lemma_update_keeps_length(row, i, (name, v));
    assert forall|j: int| 0 <= j < new.len() implies {
        &&& (#[trigger] new[j]).0 == columns[j].name
        &&& new[j].1.data_type() == columns[j].data_type
        &&& storable(new[j].1)
    } by {
        if j != i {
            assert(new[j] == row[j]);
        }
    }
}

/// A row of the table with the first `n` fields of a row that was read
/// back put into it is a row of the table.
pub proof fn lemma_merge_conforms(
    row: RowSpec,
    table: TableSpec,
    keys: Seq<Seq<char>>,
    outputs: Seq<Seq<u32>>,
    r: int,
    n: int,
)
    requires
        conforms(row, table.columns),
        distinct_names(table.columns),
        forall|k: int| 0 <= k < keys.len() ==> is_numeric_column(table.columns, #[trigger] keys[k]),
        rectangular(collected(table.columns, keys, outputs)),
        0 <= r < row_count(collected(table.columns, keys, outputs)),
        0 <= n <= collected(table.columns, keys, outputs).len(),
    ensures
        conforms(
            row_merge(row, row_at(collected(table.columns, keys, outputs), r), n),
            table.columns,
        ),
    decreases n,
{
    if n > 0 {
        let map = collected(table.columns, keys, outputs);
        let update = row_at(map, r);
        lemma_merge_conforms(row, table, keys, outputs, r, n - 1);
        let k = n - 1;
        assert(map[k].1.len() == map[0].1.len());
        assert(update[k] == (map[k].0, map[k].1[r]));
        assert(map[k].1[r] == value_of(column_type(table.columns, keys[k]), outputs[k][r]));
        lemma_insert_conforms(
            row_merge(row, update, n - 1),
            table.columns,
            keys[k],
            outputs[k][r],
        );
    }
}

/// After an update of rows of the table, with distinct column names and
/// numeric columns under the keys, a scan of the table's new data gives
/// the updated rows: as many as there were, each a row of the table.
pub proof fn lemma_rewrite_scans(
    table: TableSpec,
    rows: Seq<RowSpec>,
    keys: Seq<Seq<char>>,
    outputs: Seq<Seq<u32>>,
)
    requires
        forall|r: int| 0 <= r < rows.len() ==> conforms(#[trigger] rows[r], table.columns),
        distinct_names(table.columns),
        forall|k: int| 0 <= k < keys.len() ==> is_numeric_column(table.columns, #[trigger] keys[k]),
        rectangular(collected(table.columns, keys, outputs)),
    ensures
        updated(table, rows, keys, outputs).len() == rows.len(),
        scan(log_of(updated(table, rows, keys, outputs)), table.columns) == Ok::<
            Seq<RowSpec>,
            ErrorKind,
        >(updated(table, rows, keys, outputs)),
{
    let map = collected(table.columns, keys, outputs);
    let read_back = rows_of(map);
    let new_rows = updated(table, rows, keys, outputs);
    assert forall|r: int| 0 <= r < new_rows.len() implies conforms(
        #[trigger] new_rows[r],
        table.columns,
    ) by {
        if r < read_back.len() {
            assert(read_back[r] == row_at(map, r));
            assert(row_at(map, r).len() == map.len());
            lemma_merge_conforms(rows[r], table, keys, outputs, r, map.len() as int);
        }
    }
    lemma_scan_log(new_rows, table.columns);
}

} // verus!
