//! The host side of a kernel run: what is uploaded for each column, how
//! many workgroups are dispatched, and what the words that come back are
//! taken for. The device itself is driven by the caller.

use crate::codec::{bits_int, int_bits, le_bytes, lemma_le_bytes_len};
use crate::columns::row_count;
use crate::kernel::{column_type, names_of};
use crate::types::{
    texts, values_view, ColumnMap, ColumnMapSpec, ColumnSpec, DataType, TableDefinition, Value,
    ValueSpec,
};
use vstd::prelude::*;

verus! {

/// The number of lanes in a workgroup.
pub const WORKGROUP_SIZE: usize = 64;

/// The 32-bit word that holds `v` in a column's buffer: an integer in
/// two's complement, a float as its bit pattern.
pub open spec fn word_of(v: ValueSpec) -> u32 {
    match v {
        ValueSpec::Integer(i) => int_bits(i) as u32,
        ValueSpec::Float(bits) => bits,
        _ => 0,
    }
}

/// The words that hold the values of a column.
pub open spec fn words_of(values: Seq<ValueSpec>) -> Seq<u32> {
    values.map_values(|v: ValueSpec| word_of(v))
}

/// Whether a column of type `t` with these values can be uploaded: the
/// type is numeric and every value is of it.
pub open spec fn uploadable(t: DataType, values: Seq<ValueSpec>) -> bool {
    t.is_numeric() && forall|i: int| 0 <= i < values.len() ==> (#[trigger] values[i]).data_type() == t
}

/// The number of workgroups that cover `rows` lanes: `rows / 64`, rounded
/// up.
pub open spec fn workgroups_for(rows: nat) -> nat {
    (rows + 63) / 64
}

/// Whether a run can be planned for `map` over a table with these
/// columns: there is a column, every column of the map is a column of the
/// table and can be uploaded, and the bindings and the workgroups can be
/// counted in 32 bits.
pub open spec fn runnable(columns: Seq<ColumnSpec>, map: ColumnMapSpec) -> bool {
    &&& map.len() > 0
    &&& forall|k: int|
        0 <= k < map.len() ==> {
            &&& column_type(columns, (#[trigger] map[k]).0) is Some
            &&& uploadable(column_type(columns, map[k].0)->0, map[k].1)
        }
    &&& map.len() <= u32::MAX
    &&& workgroups_for(row_count(map)) <= u32::MAX
}

/// The four bytes of a word in memory: least significant first on a
/// little-endian machine, most significant first on a big-endian one.
pub open spec fn word_bytes(word: u32, little_endian: bool) -> Seq<u8> {
    if little_endian {
        le_bytes(word as nat, 4)
    } else {
        le_bytes(word as nat, 4).reverse()
    }
}

/// The bytes of the words in memory, word after word.
pub open spec fn layout(words: Seq<u32>, little_endian: bool) -> Seq<u8>
    decreases words.len(),
{
    if words.len() == 0 {
        Seq::empty()
    } else {
        layout(words.drop_last(), little_endian) + word_bytes(words.last(), little_endian)
    }
}

/// There are four bytes to a word.
pub proof fn lemma_layout_len(words: Seq<u32>, little_endian: bool)
    ensures
        layout(words, little_endian).len() == 4 * words.len(),
    decreases words.len(),
{
    if words.len() > 0 {
        lemma_layout_len(words.drop_last(), little_endian);
        lemma_le_bytes_len(words.last() as nat, 4);
    }
}

/// `bytemuck::cast_slice` from 32-bit words to bytes: the words' memory,
/// byte by byte. The machine is little-endian or big-endian, so the bytes
/// are one of the two layouts; which one is the machine's choice.
#[verifier::external_body]
fn words_to_bytes(words: &Vec<u32>) -> (bytes: Vec<u8>)
    ensures
        bytes@ == layout(words@, true) || bytes@ == layout(words@, false),
{
    bytemuck::cast_slice::<u32, u8>(words.as_slice()).to_vec()
}

/// The value that a word read back from a column stands for: an integer
/// in two's complement where the column is an integer column, and the
/// bit pattern of a float otherwise.
pub open spec fn value_of(t: Option<DataType>, word: u32) -> ValueSpec {
    if t == Some(DataType::Integer) {
        ValueSpec::Integer(bits_int(word as nat))
    } else {
        ValueSpec::Float(word)
    }
}

/// The values that the words read back from a column stand for.
pub open spec fn values_of(t: Option<DataType>, words: Seq<u32>) -> Seq<ValueSpec> {
    words.map_values(|w: u32| value_of(t, w))
}

/// The views of the outputs of a run.
pub open spec fn outputs_view(outputs: Seq<Vec<u32>>) -> Seq<Seq<u32>> {
    outputs.map_values(|o: Vec<u32>| o@)
}

/// The column map of what was read back: each key with the values of the
/// output at its index, typed as the key's column in the table is. Keys
/// without an output, and outputs without a key, are left out.
pub open spec fn collected(
    columns: Seq<ColumnSpec>,
    keys: Seq<Seq<char>>,
    outputs: Seq<Seq<u32>>,
) -> ColumnMapSpec {
    Seq::new(
        if keys.len() <= outputs.len() {
            keys.len()
        } else {
            outputs.len()
        },
        |k: int| (keys[k], values_of(column_type(columns, keys[k]), outputs[k])),
    )
}

/// A value of a numeric column that is uploaded as a word and read back
/// unchanged is the value it was.
pub proof fn lemma_word_round_trip(v: ValueSpec)
    requires
        v.data_type().is_numeric(),
    ensures
        value_of(Some(v.data_type()), word_of(v)) == v,
{
}

/// A column that is uploaded and read back unchanged is the column it
/// was.
pub proof fn lemma_words_round_trip(t: DataType, values: Seq<ValueSpec>)
    requires
        uploadable(t, values),
    ensures
        values_of(Some(t), words_of(values)) == values,
{
    assert forall|i: int| 0 <= i < values.len() implies values_of(Some(t), words_of(values))[i]
        == values[i] by {
        lemma_word_round_trip(values[i]);
    }
    assert(values_of(Some(t), words_of(values)) =~= values);
}

/// What is handed to the device for a run.
#[derive(Debug)]
pub struct Dispatch {
    /// The columns' names, in the order of their bindings.
    pub keys: Vec<String>,
    /// For each column, the index at which its storage buffer is bound.
    pub bindings: Vec<u32>,
    /// For each column, the words of its storage buffer, one to a value.
    pub words: Vec<Vec<u32>>,
    /// For each column, the number of 32-bit words to read back.
    pub output_words: Vec<usize>,
    /// The number of workgroups along x; along y and z it is one.
    pub workgroups: u32,
}

/// Plans and reads back a kernel run.
#[derive(Debug)]
pub struct ShaderExecutor;

impl ShaderExecutor {
    /// The words that hold a column's values, as [`words_of`] says.
    pub fn column_words(values: &Vec<Value>, t: DataType) -> (words: Vec<u32>)
        requires
            uploadable(t, values_view(values@)),
        ensures
            words@ == words_of(values_view(values@)),
    {
        let ghost all = values_view(values@);
        let mut words: Vec<u32> = Vec::new();
        let mut i: usize = 0;
        while i < values.len()
            invariant
                i <= values.len(),
                all == values_view(values@),
                uploadable(t, all),
                words@ == words_of(all).take(i as int),
            decreases values.len() - i,
        {
            assert(all[i as int] == values@[i as int]@);
            assert(all[i as int].data_type() == t);
            let word: u32 = match &values[i] {
                Value::Integer(x) => if *x < 0 {
                    (*x as i64 + 0x1_0000_0000) as u32
                } else {
                    *x as u32
                },
                Value::Float(bits) => *bits,
                _ => 0,
            };
            words.push(word);
            assert(words@ =~= words_of(all).take(i + 1));
            i = i + 1;
        }
        assert(words_of(all).take(values.len() as int) =~= words_of(all));
        words
    }

    /// Executable form of [`uploadable`].
    pub fn can_upload(values: &Vec<Value>, t: DataType) -> (b: bool)
        ensures
            b == uploadable(t, values_view(values@)),
    {
        if !t.numeric() {
            return false;
        }
        let ghost all = values_view(values@);
        let mut i: usize = 0;
        while i < values.len()
            invariant
                i <= values.len(),
                all == values_view(values@),
                forall|j: int| 0 <= j < i ==> (#[trigger] all[j]).data_type() == t,
            decreases values.len() - i,
        {
            assert(all[i as int] == values@[i as int]@);
            if values[i].data_type() != t {
                return false;
            }
            i = i + 1;
        }
        true
    }

    /// Executable form of [`runnable`].
    pub fn ready(&self, data: &ColumnMap, table: &TableDefinition) -> (b: bool)
        ensures
            b == runnable(table@.columns, data@),
    {
        if data.columns.len() == 0 {
            return false;
        }
        let ghost columns = table@.columns;
        let mut k: usize = 0;
        while k < data.columns.len()
            invariant
                k <= data.columns.len(),
                columns == table@.columns,
                forall|j: int|
                    0 <= j < k ==> {
                        &&& column_type(columns, (#[trigger] data@[j]).0) is Some
                        &&& uploadable(column_type(columns, data@[j].0)->0, data@[j].1)
                    },
            decreases data.columns.len() - k,
        {
            assert(data@[k as int].0 == data.columns@[k as int].0@);
            assert(data@[k as int].1 == values_view(data.columns@[k as int].1@));
            match table.column_type(data.columns[k].0.as_str()) {
                Some(t) => {
                    if !Self::can_upload(&data.columns[k].1, t) {
                        return false;
                    }
                },
                None => {
                    return false;
                },
            }
            k = k + 1;
        }
        let rows: usize = data.columns[0].1.len();
        assert(row_count(data@) == rows) by {
            assert(data@[0].1 == values_view(data.columns@[0].1@));
        }
        rows as u64 <= 0x40_0000_0000 - 64 && data.columns.len() as u64 <= 0xFFFF_FFFF
    }

    /// The number of workgroups to dispatch along x for `rows` rows.
    pub fn workgroups(rows: usize) -> (n: u32)
        requires
            workgroups_for(rows as nat) <= u32::MAX,
        ensures
            n == workgroups_for(rows as nat),
    {
        let full: usize = rows / WORKGROUP_SIZE;
        if rows % WORKGROUP_SIZE == 0 {
            full as u32
        } else {
            (full + 1) as u32
        }
    }

    /// The contents of a storage buffer that holds `words`: the bytes of
    /// the words in the byte order of the machine, four to a word.
    pub fn buffer(words: &Vec<u32>) -> (bytes: Vec<u8>)
        ensures
            bytes@ == layout(words@, true) || bytes@ == layout(words@, false),
            bytes@.len() == 4 * words@.len(),
    {
        proof {
            lemma_layout_len(words@, true);
            lemma_layout_len(words@, false);
        }
        words_to_bytes(words)
    }

    /// Plans a run over the columns of `data`: the names in binding
    /// order; the bindings, from 0 on; for each column the words that
    /// hold its values, and as many words to read back; and the number of
    /// workgroups that covers the rows of the first column.
    pub fn plan(&self, data: &ColumnMap, table: &TableDefinition) -> (d: Dispatch)
        requires
            runnable(table@.columns, data@),
        ensures
            crate::types::texts(d.keys@) == names_of(data@),
            d.bindings@.len() == data@.len(),
            forall|k: int| 0 <= k < data@.len() ==> #[trigger] d.bindings@[k] == k,
            d.output_words@.len() == data@.len(),
            forall|k: int| 0 <= k < data@.len() ==> #[trigger] d.output_words@[k] == data@[k].1.len(),
            d.words@.len() == data@.len(),
            forall|k: int| 0 <= k < data@.len() ==> (#[trigger] d.words@[k])@ == words_of(data@[k].1),
            d.workgroups == workgroups_for(row_count(data@)),
    {
        let ghost columns = table@.columns;
        let mut keys: Vec<String> = Vec::new();
        let mut bindings: Vec<u32> = Vec::new();
        let mut words: Vec<Vec<u32>> = Vec::new();
        let mut output_words: Vec<usize> = Vec::new();
        let mut k: usize = 0;
        while k < data.columns.len()
            invariant
                k <= data.columns.len(),
                columns == table@.columns,
                runnable(columns, data@),
                keys@.len() == k,
                bindings@.len() == k,
                words@.len() == k,
                output_words@.len() == k,
                forall|j: int| 0 <= j < k ==> (#[trigger] keys@[j])@ == data@[j].0,
                forall|j: int| 0 <= j < k ==> #[trigger] bindings@[j] == j,
                forall|j: int| 0 <= j < k ==> #[trigger] output_words@[j] == data@[j].1.len(),
                forall|j: int| 0 <= j < k ==> (#[trigger] words@[j])@ == words_of(data@[j].1),
            decreases data.columns.len() - k,
        {
            assert(data@[k as int].0 == data.columns@[k as int].0@);
            assert(data@[k as int].1 == values_view(data.columns@[k as int].1@));
            let name = &data.columns[k].0;
            let t = match table.column_type(name.as_str()) {
                Some(t) => t,
                None => vstd::pervasive::unreached(),
            };
            words.push(Self::column_words(&data.columns[k].1, t));
            keys.push(name.clone());
            bindings.push(k as u32);
            output_words.push(data.columns[k].1.len());
            k = k + 1;
        }
        let rows: usize = data.columns[0].1.len();
        assert(row_count(data@) == rows) by {
            assert(data@[0].1 == values_view(data.columns@[0].1@));
        }
        assert(crate::types::texts(keys@) =~= names_of(data@));
        Dispatch { keys, bindings, words, output_words, workgroups: Self::workgroups(rows) }
    }

    /// Executable form of [`values_of`].
    pub fn typed_values(t: Option<DataType>, words: &Vec<u32>) -> (values: Vec<Value>)
        ensures
            values_view(values@) == values_of(t, words@),
    {
        let integer: bool = match t {
            Some(DataType::Integer) => true,
            _ => false,
        };
        let mut values: Vec<Value> = Vec::new();
        let mut i: usize = 0;
        while i < words.len()
            invariant
                i <= words.len(),
                integer == (t == Some(DataType::Integer)),
                values_view(values@) == values_of(t, words@).take(i as int),
            decreases words.len() - i,
        {
            let ghost before = values_view(values@);
            let word: u32 = words[i];
            let value = if integer {
                Value::Integer(
                    if word >= 0x8000_0000 {
                        (word as i64 - 0x1_0000_0000) as i32
                    } else {
                        word as i32
                    },
                )
            } else {
                Value::Float(word)
            };
            values.push(value);
            assert(values_view(values@) =~= before.push(value_of(t, word)));
            assert(values_view(values@) =~= values_of(t, words@).take(i + 1));
            i = i + 1;
        }
        assert(values_of(t, words@).take(words.len() as int) =~= values_of(t, words@));
        values
    }

    /// Makes a column map of what was read back, as [`collected`] says:
    /// each key with the values of the output at its index, integers for
    /// an integer column of `table` and floats otherwise.
    pub fn collect(&self, table: &TableDefinition, keys: &Vec<String>, outputs: &Vec<Vec<u32>>) -> (map:
        ColumnMap)
        ensures
            map@ == collected(table@.columns, texts(keys@), outputs_view(outputs@)),
    {
        let ghost columns = table@.columns;
        let ghost names = texts(keys@);
        let ghost words = outputs_view(outputs@);
        let mut map = ColumnMap { columns: Vec::new() };
        let mut k: usize = 0;
        while k < keys.len() && k < outputs.len()
            invariant
                k <= keys.len(),
                k <= outputs.len(),
                columns == table@.columns,
                names == texts(keys@),
                words == outputs_view(outputs@),
                map@.len() == k,
                forall|j: int|
                    0 <= j < k ==> (#[trigger] map@[j]) == (
                        names[j],
                        values_of(column_type(columns, names[j]), words[j]),
                    ),
            decreases keys.len() - k,
        {
            let t = table.column_type(keys[k].as_str());
            let values = Self::typed_values(t, &outputs[k]);
            let ghost before = map@;
            let ghost v = values_view(values@);
            map.columns.push((keys[k].clone(), values));
            assert(map@ =~= before.push((names[k as int], v)));
            k = k + 1;
        }
        assert(map@ =~= collected(columns, names, words));
        map
    }

    /// The column map after a run over `data`, given the words that were
    /// read back for its columns: the columns of `data` under their names
    /// and in their order, each with the values of the output at its
    /// index, typed as the column is. A column whose words came back as
    /// they were uploaded is the column it was.
    pub fn run(&self, data: &ColumnMap, table: &TableDefinition, outputs: &Vec<Vec<u32>>) -> (map:
        ColumnMap)
        ensures
            map@ == collected(table@.columns, names_of(data@), outputs_view(outputs@)),
            forall|k: int|
                0 <= k < map@.len() && column_type(table@.columns, data@[k].0) is Some
                    && uploadable(column_type(table@.columns, data@[k].0)->0, data@[k].1)
                    && outputs@[k]@ == words_of(data@[k].1) ==> #[trigger] map@[k] == data@[k],
    {
        let mut keys: Vec<String> = Vec::new();
        let mut k: usize = 0;
        while k < data.columns.len()
            invariant
                k <= data.columns.len(),
                keys@.len() == k,
                forall|j: int| 0 <= j < k ==> (#[trigger] keys@[j])@ == data@[j].0,
            decreases data.columns.len() - k,
        {
            assert(data@[k as int].0 == data.columns@[k as int].0@);
            keys.push(data.columns[k].0.clone());
            k = k + 1;
        }
        assert(texts(keys@) =~= names_of(data@));
        let map = self.collect(table, &keys, outputs);
        proof {
            assert forall|k: int|
                0 <= k < map@.len() && column_type(table@.columns, data@[k].0) is Some
                    && uploadable(column_type(table@.columns, data@[k].0)->0, data@[k].1)
                    && outputs@[k]@ == words_of(data@[k].1) implies #[trigger] map@[k]
                == data@[k] by {
                lemma_words_round_trip(
                    column_type(table@.columns, data@[k].0)->0,
                    data@[k].1,
                );
                assert(names_of(data@)[k] == data@[k].0);
            }
        }
        map
    }
}

} // verus!
