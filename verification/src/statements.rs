//! `INSERT INTO`, `SELECT` and `UPDATE`: reading each statement, and what
//! each does to values that the caller has loaded.
//!
//! ```text
//! INSERT INTO <name> VALUES ( v1, v2, ... )
//! SELECT * FROM <name> [WHERE <column> = <literal> (AND|OR <column> = <literal>)*]
//! UPDATE <name> SET <assignment> (, <assignment>)*
//! ```

use crate::columns::{project, project_numeric};
use crate::kernel::{
    generate_kernel, kernel_check, kernel_text, names_of, searchable, KernelError,
};
use crate::literal::{bits_at, literal_value, parse_literal, rendered, text_at};
use crate::parser::{error_text, parse_program, ExpressionParser};
use crate::rowlog::{
    append_frame, conforms, encode_fields, frame, lemma_log_append, lemma_scan_log, log_of, scan,
};
use crate::codec::{encode_value, put_value, storable};
use crate::text::{
    chars_of, find, find_keyword, has_prefix, index_of, index_of_keyword, last_index_of, remove_char,
    rfind_char, same_str, slice_of, split, split_at_keyword, split_by, split_keywords, starts_with,
    string_of, strip_trailing, trim, trimmed, without_char, without_trailing,
};
use crate::types::{
    criteria_view, last_field, rows_view, texts, ColumnMap, ColumnSpec, ErrorKind, InsertDefinition,
    InsertSpec, Row, RowSpec, SelectDefinition, SelectSpec, TableDefinition, TableSpec,
    UpdateDefinition, UpdateSpec, ValueSpec,
};
use vstd::prelude::*;

verus! {

/// Each of the pieces without the white space around it.
pub open spec fn trim_each(pieces: Seq<Seq<char>>) -> Seq<Seq<char>> {
    pieces.map_values(|p: Seq<char>| trim(p))
}

/// The insertion that the statement `sql` asks for. Without the white
/// space around it, the statement begins with `INSERT` and has the keyword
/// `VALUES`, a `(` and a `)`. The name stands from the thirteenth
/// character to the first `VALUES` that is a keyword; the values stand between the first `(` and the last
/// `)`, separated by commas, and each is taken without the white space
/// around it.
pub open spec fn insert_from_sql(sql: Seq<char>) -> Option<InsertSpec> {
    let s = trim(sql);
    if !has_prefix(s, "INSERT"@) {
        None
    } else {
        match (index_of_keyword(s, "VALUES"@), index_of(s, "("@), last_index_of(s, ')')) {
            (Some(values), Some(open), Some(close)) => if values < 12 || open + 1 > close {
                None
            } else {
                Some(
                    InsertSpec {
                        name: trim(s.subrange(12, values)),
                        table_definition: TableSpec { name: Seq::empty(), columns: Seq::empty() },
                        values: trim_each(split_by(trim(s.subrange(open + 1, close)), ","@)),
                    },
                )
            },
            _ => None,
        }
    }
}

/// The payload of the first `n` values, each read as a literal of its
/// column's type; `None` where one of them spells no value of that type.
pub open spec fn literal_payload(
    values: Seq<Seq<char>>,
    columns: Seq<ColumnSpec>,
    float_bits: Seq<Option<u32>>,
    n: int,
) -> Option<Seq<u8>>
    decreases n,
{
    if n <= 0 {
        Some(Seq::empty())
    } else {
        match (
            literal_payload(values, columns, float_bits, n - 1),
            literal_value(values[n - 1], columns[n - 1].data_type, bits_at(float_bits, n - 1)),
        ) {
            (Some(before), Some(v)) => Some(before + encode_value(v)),
            _ => None,
        }
    }
}

/// What validating an insertion gives: the frame to append to the table's
/// data, or `InvalidInput` where the values are not as many as the
/// columns or one of them spells no value of its column's type.
pub open spec fn insert_frame(
    values: Seq<Seq<char>>,
    columns: Seq<ColumnSpec>,
    float_bits: Seq<Option<u32>>,
) -> Result<Seq<u8>, ErrorKind> {
    if values.len() != columns.len() {
        Err(ErrorKind::InvalidInput)
    } else {
        match literal_payload(values, columns, float_bits, values.len() as int) {
            Some(payload) => Ok(frame(payload)),
            None => Err(ErrorKind::InvalidInput),
        }
    }
}

impl InsertDefinition {
    /// Reads an `INSERT INTO` statement, as [`insert_from_sql`] says.
    pub fn from_sql(sql: &str) -> (r: Option<Self>)
        ensures
            match insert_from_sql(sql@) {
                Some(d) => r matches Some(x) && x@ == d,
                None => r is None,
            },
    {
        let raw = chars_of(sql);
        let s = trimmed(&raw);
        let head = chars_of("INSERT");
        let keyword = chars_of("VALUES");
        let paren = chars_of("(");
        let comma = chars_of(",");
        if !starts_with(&s, &head) {
            return None;
        }
        let values_at = match find_keyword(&s, &keyword) {
            Some(i) => i,
            None => {
                return None;
            },
        };
        let open = match find(&s, &paren) {
            Some(i) => i,
            None => {
                return None;
            },
        };
        let close = match rfind_char(&s, ')') {
            Some(i) => i,
            None => {
                return None;
            },
        };
        proof {
            reveal_strlit("(");
            crate::text::lemma_find_from(s@, "("@, 0);
            lemma_last_index_of(s@, ')');
        }
        if values_at < 12 || open + 1 > close {
            return None;
        }
        let name = trimmed(&slice_of(&s, 12, values_at));
        let inner = trimmed(&slice_of(&s, open + 1, close));
        let pieces = split(&inner, &comma);
        let ghost spec_pieces = split_by(inner@, ","@);
        let mut values: Vec<String> = Vec::new();
        let mut i: usize = 0;
        while i < pieces.len()
            invariant
                i <= pieces.len(),
                spec_pieces == pieces@.map_values(|p: Vec<char>| p@),
                values@.len() == i,
                forall|j: int| 0 <= j < i ==> (#[trigger] values@[j])@ == trim(spec_pieces[j]),
            decreases pieces.len() - i,
        {
            assert(spec_pieces[i as int] == pieces@[i as int]@);
            values.push(string_of(&trimmed(&pieces[i])));
            i = i + 1;
        }
        assert(texts(values@) =~= trim_each(spec_pieces));
        let table_definition = TableDefinition { name: String::new(), columns: Vec::new() };
        assert(table_definition@.columns =~= Seq::<ColumnSpec>::empty());
        assert(table_definition@.name =~= Seq::<char>::empty());
        Some(InsertDefinition { name: string_of(&name), table_definition, values })
    }

    /// Validates the insertion against the table's schema, which the
    /// caller has loaded, and gives the frame to append to the table's
    /// data. The schema is kept in `table_definition`. `float_bits` holds,
    /// for each value, what the platform's conversion to a float made of
    /// it; it is looked at for the float columns alone.
    pub fn validate_and_insert(
        &mut self,
        table_definition: TableDefinition,
        float_bits: &Vec<Option<u32>>,
    ) -> (r: Result<Vec<u8>, ErrorKind>)
        ensures
            final(self)@.name == old(self)@.name,
            final(self)@.values == old(self)@.values,
            final(self)@.table_definition == table_definition@,
            match insert_frame(old(self)@.values, table_definition@.columns, float_bits@) {
                Ok(bytes) => r matches Ok(x) && x@ == bytes,
                Err(e) => r == Err::<Vec<u8>, ErrorKind>(e),
            },
    {
        let ghost schema = table_definition@;
        self.table_definition = table_definition;
        let ghost values = self@.values;
        let ghost columns = self@.table_definition.columns;
        if self.values.len() != self.table_definition.columns.len() {
            return Err(ErrorKind::InvalidInput);
        }
        let mut payload: Vec<u8> = Vec::new();
        let mut i: usize = 0;
        while i < self.values.len()
            invariant
                i <= self.values.len(),
                self.values.len() == self.table_definition.columns.len(),
                values == self@.values,
                columns == self@.table_definition.columns,
                self@.name == old(self)@.name,
                self@.values == old(self)@.values,
                self@.table_definition == schema,
                schema == table_definition@,
                literal_payload(values, columns, float_bits@, i as int) == Some(payload@),
            decreases self.values.len() - i,
        {
            let bits: Option<u32> = if i < float_bits.len() {
                float_bits[i]
            } else {
                None
            };
            assert(values[i as int] == self.values@[i as int]@);
            assert(columns[i as int] == self.table_definition.columns@[i as int]@);
            match parse_literal(
                self.values[i].as_str(),
                &self.table_definition.columns[i].data_type,
                bits,
            ) {
                Ok(v) => {
                    put_value(&mut payload, &v);
                },
                Err(_) => {
                    proof {
                        lemma_payload_fails(
                            values,
                            columns,
                            float_bits@,
                            i + 1,
                            values.len() as int,
                        );
                    }
                    return Err(ErrorKind::InvalidInput);
                },
            }
            i = i + 1;
        }
        let mut out: Vec<u8> = Vec::new();
        append_frame(&mut out, &payload);
        assert(out@ =~= frame(payload@));
        Ok(out)
    }
}

/// Once a value spells nothing of its column's type, there is no payload,
/// however many values are taken.
pub proof fn lemma_payload_fails(
    values: Seq<Seq<char>>,
    columns: Seq<ColumnSpec>,
    float_bits: Seq<Option<u32>>,
    m: int,
    n: int,
)
    requires
        m <= n,
        literal_payload(values, columns, float_bits, m) is None,
    ensures
        literal_payload(values, columns, float_bits, n) is None,
    decreases n - m,
{
    if m < n {
        lemma_payload_fails(values, columns, float_bits, m, n - 1);
    }
}

/// The row that an insertion stores: for each column, under the column's
/// name, the value that the literal at its place spells.
pub open spec fn inserted_row(
    values: Seq<Seq<char>>,
    columns: Seq<ColumnSpec>,
    float_bits: Seq<Option<u32>>,
) -> RowSpec {
    Seq::new(
        columns.len(),
        |i: int|
            (
                columns[i].name,
                literal_value(values[i], columns[i].data_type, bits_at(float_bits, i))->0,
            ),
    )
}

/// The payload of the first `n` values is the payload of the first `n`
/// fields of the row that the insertion stores.
pub proof fn lemma_literal_payload(
    values: Seq<Seq<char>>,
    columns: Seq<ColumnSpec>,
    float_bits: Seq<Option<u32>>,
    n: int,
)
    requires
        0 <= n <= columns.len(),
        literal_payload(values, columns, float_bits, n) is Some,
    ensures
        literal_payload(values, columns, float_bits, n) == Some(
            encode_fields(inserted_row(values, columns, float_bits).take(n)),
        ),
        forall|i: int|
            0 <= i < n ==> literal_value(
                values[i],
                columns[i].data_type,
                bits_at(float_bits, i),
            ) is Some,
    decreases n,
{
    let row = inserted_row(values, columns, float_bits);
    if n == 0 {
        assert(row.take(0) =~= Seq::empty());
    } else {
        lemma_literal_payload(values, columns, float_bits, n - 1);
        assert(row.take(n) =~= row.take(n - 1).push(row[n - 1]));
        lemma_encode_fields_push(row.take(n - 1), row[n - 1]);
    }
}

/// A row with one more field has that field's bytes at the end of its
/// payload.
pub proof fn lemma_encode_fields_push(row: RowSpec, field: (Seq<char>, ValueSpec))
    ensures
        encode_fields(row.push(field)) == encode_fields(row) + encode_value(field.1),
    decreases row.len(),
{
    let all = row.push(field);
    if row.len() == 0 {
        assert(all.skip(1) =~= Seq::<(Seq<char>, ValueSpec)>::empty());
        assert(encode_fields(all.skip(1)) =~= Seq::<u8>::empty());
        assert(encode_fields(all) =~= encode_value(field.1));
        assert(encode_fields(row) + encode_value(field.1) =~= encode_value(field.1));
    } else {
        lemma_encode_fields_push(row.skip(1), field);
        assert(all.skip(1) =~= row.skip(1).push(field));
        assert(all[0] == row[0]);
        assert(encode_fields(all) =~= encode_fields(row) + encode_value(field.1));
    }
}

/// A payload is at least as long as the bytes of each of its fields.
pub proof fn lemma_encode_fields_len(row: RowSpec, i: int)
    requires
        0 <= i < row.len(),
    ensures
        encode_value(row[i].1).len() <= encode_fields(row).len(),
    decreases row.len(),
{
    if i > 0 {
        lemma_encode_fields_len(row.skip(1), i - 1);
    }
}

/// A validated insertion appends the frame of a row of the table, and a
/// scan of the table's data, with that frame at its end, gives the rows
/// that were there and then that row.
pub proof fn lemma_insert_then_scan(
    rows: Seq<RowSpec>,
    values: Seq<Seq<char>>,
    columns: Seq<ColumnSpec>,
    float_bits: Seq<Option<u32>>,
)
    requires
        forall|i: int| 0 <= i < rows.len() ==> conforms(#[trigger] rows[i], columns),
        insert_frame(values, columns, float_bits) is Ok,
        insert_frame(values, columns, float_bits)->Ok_0.len() <= u64::MAX,
    ensures
        conforms(inserted_row(values, columns, float_bits), columns),
        scan(log_of(rows) + insert_frame(values, columns, float_bits)->Ok_0, columns) == Ok::<
            Seq<RowSpec>,
            ErrorKind,
        >(rows.push(inserted_row(values, columns, float_bits))),
{
    let row = inserted_row(values, columns, float_bits);
    let n = columns.len() as int;
    lemma_literal_payload(values, columns, float_bits, n);
    assert(row.take(n) =~= row);
    let payload = encode_fields(row);
    assert(insert_frame(values, columns, float_bits) == Ok::<Seq<u8>, ErrorKind>(frame(payload)));
    crate::codec::lemma_le_bytes_len(payload.len(), 8);
    assert(frame(payload).len() == 10 + payload.len());
    assert forall|i: int| 0 <= i < row.len() implies {
        &&& (#[trigger] row[i]).0 == columns[i].name
        &&& row[i].1.data_type() == columns[i].data_type
        &&& storable(row[i].1)
    } by {
        lemma_encode_fields_len(row, i);
        if row[i].1 is Text {
            crate::codec::lemma_le_bytes_len(
                vstd::utf8::encode_utf8(row[i].1->Text_0).len(),
                8,
            );
        }
    }
    lemma_log_append(rows, row);
    let all = rows.push(row);
    assert forall|i: int| 0 <= i < all.len() implies conforms(#[trigger] all[i], columns) by {
        if i < rows.len() {
            assert(all[i] == rows[i]);
        }
    }
    lemma_scan_log(all, columns);
}

/// [`last_index_of`] gives an index of the text.
pub proof fn lemma_last_index_of(s: Seq<char>, c: char)
    ensures
        last_index_of(s, c) matches Some(i) ==> 0 <= i < s.len() && s[i] == c,
    decreases s.len(),
{
    if s.len() > 0 && s.last() != c {
        lemma_last_index_of(s.drop_last(), c);
    }
}

/// The pieces of the first `n` texts between the places where `pat`
/// stands as a keyword, one text's pieces after the other's.
pub open spec fn split_each(texts: Seq<Seq<char>>, pat: Seq<char>, n: int) -> Seq<Seq<char>>
    decreases n,
{
    if n <= 0 {
        Seq::empty()
    } else {
        split_each(texts, pat, n - 1) + split_at_keyword(texts[n - 1], pat)
    }
}

/// The conditions of a `WHERE` clause: what stands between the words
/// `AND` and `OR`, each without the white space around it. `AND` and `OR`
/// inside a longer word or a quoted literal are no separators.
pub open spec fn conditions_of(text: Seq<char>) -> Seq<Seq<char>> {
    let parts = split_at_keyword(text, "AND"@);
    trim_each(split_each(parts, "OR"@, parts.len() as int))
}

/// The comparison that a condition asks for: the column before its one
/// `=`, the operator `=`, and the literal after it without its single
/// quotes. A text with no `=`, or with more than one, is no condition.
pub open spec fn condition_from(text: Seq<char>) -> Option<(Seq<char>, Seq<char>, Seq<char>)> {
    let sides = split_by(text, "="@);
    if sides.len() != 2 {
        None
    } else {
        Some((trim(sides[0]), "="@, without_char(trim(sides[1]), '\'')))
    }
}

/// The comparisons of the first `n` conditions; `None` where one of them
/// is no condition.
pub open spec fn criteria_from(conditions: Seq<Seq<char>>, n: int) -> Option<
    Seq<(Seq<char>, Seq<char>, Seq<char>)>,
>
    decreases n,
{
    if n <= 0 {
        Some(Seq::empty())
    } else {
        match (criteria_from(conditions, n - 1), condition_from(conditions[n - 1])) {
            (Some(before), Some(c)) => Some(before.push(c)),
            _ => None,
        }
    }
}

/// The comparisons of a `WHERE` clause. An empty clause has none.
pub open spec fn parsed_criteria(text: Seq<char>) -> Option<
    Seq<(Seq<char>, Seq<char>, Seq<char>)>,
> {
    if text.len() == 0 {
        Some(Seq::empty())
    } else {
        criteria_from(conditions_of(text), conditions_of(text).len() as int)
    }
}

/// The selection that the statement `sql` asks for. Without the white
/// space around it and the semicolons at its end, the statement begins
/// with `SELECT` and has the keyword `FROM`. The name stands after the first
/// `FROM` that is a keyword and the one character that follows
/// it, up to the first `WHERE` that is a keyword or to the end;
/// the conditions stand after that `WHERE` and the one character that
/// follows it.
pub open spec fn select_from_sql(sql: Seq<char>) -> Option<SelectSpec> {
    let s = strip_trailing(trim(sql), ';');
    if !has_prefix(s, "SELECT"@) {
        None
    } else {
        match index_of_keyword(s, "FROM"@) {
            None => None,
            Some(from) => {
                let clause = index_of_keyword(s, "WHERE"@);
                let end = match clause {
                    Some(w) => w,
                    None => s.len() as int,
                };
                let conditions = match clause {
                    Some(w) => if w + 6 <= s.len() {
                        parsed_criteria(trim(s.subrange(w + 6, s.len() as int)))
                    } else {
                        None
                    },
                    None => Some(Seq::empty()),
                };
                if from + 5 > end || conditions is None {
                    None
                } else {
                    Some(
                        SelectSpec {
                            table_name: trim(s.subrange(from + 5, end)),
                            criteria: conditions->0,
                        },
                    )
                }
            },
        }
    }
}

/// Whether the row meets the comparison: the operator is `=` and the text
/// of the row's value under the column is the literal. `float_texts`
/// holds, for each field of the row, what the platform writes for the
/// field's value; it is looked at for the float values alone.
pub open spec fn criterion_holds(
    row: RowSpec,
    float_texts: Seq<Seq<char>>,
    c: (Seq<char>, Seq<char>, Seq<char>),
) -> bool {
    c.1 == "="@ && match last_field(row, c.0) {
        Some(i) => rendered(row[i].1, text_at(float_texts, i)) == c.2,
        None => false,
    }
}

/// Whether the row meets every one of the comparisons.
pub open spec fn all_hold(
    row: RowSpec,
    float_texts: Seq<Seq<char>>,
    criteria: Seq<(Seq<char>, Seq<char>, Seq<char>)>,
) -> bool {
    forall|k: int| 0 <= k < criteria.len() ==> criterion_holds(row, float_texts, #[trigger] criteria[k])
}

/// The entry of `list` at `i`, or an empty list where there is none.
pub open spec fn texts_at(list: Seq<Seq<Seq<char>>>, i: int) -> Seq<Seq<char>> {
    if 0 <= i < list.len() {
        list[i]
    } else {
        Seq::empty()
    }
}

/// Those of the first `n` rows that meet every comparison, in order.
pub open spec fn selected(
    rows: Seq<RowSpec>,
    float_texts: Seq<Seq<Seq<char>>>,
    criteria: Seq<(Seq<char>, Seq<char>, Seq<char>)>,
    n: int,
) -> Seq<RowSpec>
    decreases n,
{
    if n <= 0 {
        Seq::empty()
    } else {
        let before = selected(rows, float_texts, criteria, n - 1);
        if all_hold(rows[n - 1], texts_at(float_texts, n - 1), criteria) {
            before.push(rows[n - 1])
        } else {
            before
        }
    }
}

/// The views of lists of strings.
pub open spec fn text_lists(v: Seq<Vec<String>>) -> Seq<Seq<Seq<char>>> {
    v.map_values(|list: Vec<String>| texts(list@))
}

impl SelectDefinition {
    /// Reads a `SELECT` statement, as [`select_from_sql`] says.
    pub fn from_sql(sql: &str) -> (r: Option<Self>)
        ensures
            match select_from_sql(sql@) {
                Some(d) => r matches Some(x) && x@ == d,
                None => r is None,
            },
    {
        let raw = chars_of(sql);
        let s = without_trailing(&trimmed(&raw), ';');
        let head = chars_of("SELECT");
        let from_word = chars_of("FROM");
        let where_word = chars_of("WHERE");
        if !starts_with(&s, &head) {
            return None;
        }
        let from = match find_keyword(&s, &from_word) {
            Some(i) => i,
            None => {
                return None;
            },
        };
        proof {
            reveal_strlit("FROM");
            reveal_strlit("WHERE");
        }
        let clause = find_keyword(&s, &where_word);
        let end: usize = match clause {
            Some(w) => w,
            None => s.len(),
        };
        let criteria: Vec<(String, String, String)> = match clause {
            Some(w) => {
                if s.len() - w < 6 {
                    return None;
                }
                let text = string_of(&trimmed(&slice_of(&s, w + 6, s.len())));
                match Self::parse_criteria(text.as_str()) {
                    Some(c) => c,
                    None => {
                        return None;
                    },
                }
            },
            None => {
                let c: Vec<(String, String, String)> = Vec::new();
                assert(criteria_view(c@) =~= Seq::empty());
                c
            },
        };
        if end < from || end - from < 5 {
            return None;
        }
        let name = trimmed(&slice_of(&s, from + 5, end));
        Some(SelectDefinition { table_name: string_of(&name), criteria })
    }

    /// Reads the conditions of a `WHERE` clause, as [`parsed_criteria`]
    /// says.
    pub fn parse_criteria(criteria: &str) -> (r: Option<Vec<(String, String, String)>>)
        ensures
            match parsed_criteria(criteria@) {
                Some(c) => r matches Some(x) && criteria_view(x@) == c,
                None => r is None,
            },
    {
        let text = chars_of(criteria);
        let mut parsed: Vec<(String, String, String)> = Vec::new();
        if text.len() == 0 {
            assert(criteria_view(parsed@) =~= Seq::empty());
            return Some(parsed);
        }
        let and_word = chars_of("AND");
        let or_word = chars_of("OR");
        let equals = chars_of("=");
        let parts = split_keywords(&text, &and_word);
        let ghost spec_parts = split_at_keyword(text@, "AND"@);
        let mut conditions: Vec<Vec<char>> = Vec::new();
        let mut i: usize = 0;
        while i < parts.len()
            invariant
                i <= parts.len(),
                or_word@ == "OR"@,
                spec_parts == parts@.map_values(|p: Vec<char>| p@),
                conditions@.map_values(|p: Vec<char>| p@) == trim_each(
                    split_each(spec_parts, "OR"@, i as int),
                ),
            decreases parts.len() - i,
        {
            let pieces = split_keywords(&parts[i], &or_word);
            let ghost spec_pieces = split_at_keyword(spec_parts[i as int], "OR"@);
            assert(spec_parts[i as int] == parts@[i as int]@);
            let ghost before = split_each(spec_parts, "OR"@, i as int);
            let mut k: usize = 0;
            while k < pieces.len()
                invariant
                    k <= pieces.len(),
                    spec_pieces == pieces@.map_values(|p: Vec<char>| p@),
                    conditions@.map_values(|p: Vec<char>| p@) == trim_each(
                        before + spec_pieces.take(k as int),
                    ),
                decreases pieces.len() - k,
            {
                let ghost done = conditions@.map_values(|p: Vec<char>| p@);
                conditions.push(trimmed(&pieces[k]));
                assert(spec_pieces[k as int] == pieces@[k as int]@);
                assert(conditions@.map_values(|p: Vec<char>| p@) =~= done.push(
                    trim(spec_pieces[k as int]),
                ));
                assert(before + spec_pieces.take(k + 1) =~= (before + spec_pieces.take(
                    k as int,
                )).push(spec_pieces[k as int]));
                assert(trim_each(before + spec_pieces.take(k + 1)) =~= trim_each(
                    before + spec_pieces.take(k as int),
                ).push(trim(spec_pieces[k as int])));
                k = k + 1;
            }
            assert(spec_pieces.take(pieces.len() as int) =~= spec_pieces);
            i = i + 1;
        }
        let ghost all = conditions_of(criteria@);
        assert(conditions@.map_values(|p: Vec<char>| p@) == all);
        let mut j: usize = 0;
        assert(criteria_view(parsed@) =~= Seq::empty());
        while j < conditions.len()
            invariant
                j <= conditions.len(),
                equals@ == "="@,
                criteria@.len() > 0,
                all == conditions_of(criteria@),
                all == conditions@.map_values(|p: Vec<char>| p@),
                criteria_from(all, j as int) == Some(criteria_view(parsed@)),
            decreases conditions.len() - j,
        {
            let ghost done = criteria_view(parsed@);
            assert(all[j as int] == conditions@[j as int]@);
            let sides = split(&conditions[j], &equals);
            if sides.len() != 2 {
                proof {
                    lemma_criteria_fail(all, j + 1, all.len() as int);
                }
                return None;
            }
            let ghost spec_sides = split_by(all[j as int], "="@);
            assert(spec_sides[0] == sides@[0]@);
            assert(spec_sides[1] == sides@[1]@);
            let key = string_of(&trimmed(&sides[0]));
            let value = string_of(&remove_char(&trimmed(&sides[1]), '\''));
            let operator = "=".to_owned();
            let ghost triple = (key@, operator@, value@);
            parsed.push((key, operator, value));
            assert(criteria_view(parsed@) =~= done.push(triple));
            j = j + 1;
        }
        Some(parsed)
    }

    /// Whether `row` meets every condition of the selection, as
    /// [`all_hold`] says. `float_texts` is as in [`criterion_holds`].
    pub fn matches_criteria(&self, row: &Row, float_texts: &Vec<String>) -> (b: bool)
        ensures
            b == all_hold(row@, texts(float_texts@), self@.criteria),
    {
        let ghost criteria = self@.criteria;
        let mut k: usize = 0;
        while k < self.criteria.len()
            invariant
                k <= self.criteria.len(),
                criteria == self@.criteria,
                forall|j: int|
                    0 <= j < k ==> criterion_holds(
                        row@,
                        texts(float_texts@),
                        #[trigger] criteria[j],
                    ),
            decreases self.criteria.len() - k,
        {
            let c = &self.criteria[k];
            assert(criteria[k as int] == (c.0@, c.1@, c.2@));
            let holds: bool = if !same_str(c.1.as_str(), "=") {
                false
            } else {
                match row.position(c.0.as_str()) {
                    Some(i) => {
                        let written: String = if i < float_texts.len() {
                            row.fields[i].1.render(float_texts[i].as_str())
                        } else {
                            row.fields[i].1.render("")
                        };
                        proof {
                            reveal_strlit("");
                            assert(""@ =~= Seq::<char>::empty());
                        }
                        same_str(written.as_str(), c.2.as_str())
                    },
                    None => false,
                }
            };
            if !holds {
                assert(!criterion_holds(row@, texts(float_texts@), criteria[k as int]));
                return false;
            }
            k = k + 1;
        }
        true
    }

    /// The rows of `all_rows` that meet every condition of the selection,
    /// in their order. `float_texts` holds, row by row, what
    /// [`SelectDefinition::matches_criteria`] is given for the row; a row
    /// without an entry is given none.
    pub fn execute(&self, all_rows: Vec<Row>, float_texts: &Vec<Vec<String>>) -> (rows: Vec<Row>)
        ensures
            rows_view(rows@) == selected(
                rows_view(all_rows@),
                text_lists(float_texts@),
                self@.criteria,
                all_rows@.len() as int,
            ),
    {
        let ghost all = rows_view(all_rows@);
        let ghost floats = text_lists(float_texts@);
        let none: Vec<String> = Vec::new();
        assert(texts(none@) =~= Seq::empty());
        let mut rows: Vec<Row> = Vec::new();
        let mut i: usize = 0;
        assert(rows_view(rows@) =~= selected(all, floats, self@.criteria, 0));
        while i < all_rows.len()
            invariant
                i <= all_rows.len(),
                all == rows_view(all_rows@),
                floats == text_lists(float_texts@),
                texts(none@) == Seq::<Seq<char>>::empty(),
                rows_view(rows@) == selected(all, floats, self@.criteria, i as int),
            decreases all_rows.len() - i,
        {
            let ghost before = rows_view(rows@);
            assert(all[i as int] == all_rows@[i as int]@);
            let keep: bool = if i < float_texts.len() {
                assert(floats[i as int] == texts(float_texts@[i as int]@));
                self.matches_criteria(&all_rows[i], &float_texts[i])
            } else {
                self.matches_criteria(&all_rows[i], &none)
            };
            if keep {
                rows.push(all_rows[i].clone());
                assert(rows_view(rows@) =~= before.push(all[i as int]));
            }
            i = i + 1;
        }
        rows
    }
}

/// Once a condition is none, there are no criteria, however many
/// conditions are taken.
pub proof fn lemma_criteria_fail(conditions: Seq<Seq<char>>, m: int, n: int)
    requires
        m <= n,
        criteria_from(conditions, m) is None,
    ensures
        criteria_from(conditions, n) is None,
    decreases n - m,
{
    if m < n {
        lemma_criteria_fail(conditions, m, n - 1);
    }
}

/// The update that the statement `sql` asks for. Without the white space
/// around it and the semicolons at its end, the statement begins with
/// `UPDATE` and has the keyword `SET`. The name stands from the eighth
/// character to the first `SET` that is a keyword; what follows
/// that `SET` is the text of the assignments. Both are taken without the white space around them.
pub open spec fn update_from_sql(sql: Seq<char>) -> Option<UpdateSpec> {
    let s = strip_trailing(trim(sql), ';');
    if !has_prefix(s, "UPDATE"@) {
        None
    } else {
        match index_of_keyword(s, "SET"@) {
            None => None,
            Some(set) => if set < 7 {
                None
            } else {
                Some(
                    UpdateSpec {
                        table_name: trim(s.subrange(7, set)),
                        set_query: trim(s.subrange(set + 3, s.len() as int)),
                    },
                )
            },
        }
    }
}

/// Why an update cannot be turned into a kernel.
#[derive(Debug)]
pub enum UpdateError {
    /// The text after `SET` is not a list of assignments; the message
    /// says where it stops being one.
    Parse(String),
    /// The assignments cannot be compiled for the table's columns.
    Kernel(KernelError),
}

impl UpdateDefinition {
    /// Reads an `UPDATE` statement, as [`update_from_sql`] says.
    pub fn from_sql(sql: &str) -> (r: Option<Self>)
        ensures
            match update_from_sql(sql@) {
                Some(d) => r matches Some(x) && x@ == d,
                None => r is None,
            },
    {
        let raw = chars_of(sql);
        let s = without_trailing(&trimmed(&raw), ';');
        let head = chars_of("UPDATE");
        let set_word = chars_of("SET");
        if !starts_with(&s, &head) {
            return None;
        }
        let set = match find_keyword(&s, &set_word) {
            Some(i) => i,
            None => {
                return None;
            },
        };
        proof {
            reveal_strlit("SET");
        }
        if set < 7 {
            return None;
        }
        let name = trimmed(&slice_of(&s, 7, set));
        let query = trimmed(&slice_of(&s, set + 3, s.len()));
        Some(UpdateDefinition { table_name: string_of(&name), set_query: string_of(&query) })
    }

    /// Loads the table's rows into columns: the numeric columns of
    /// `table`, each with its values in `rows`, as
    /// [`crate::columns::project`] says.
    pub fn load_data(&self, table: &TableDefinition, rows: &Vec<Row>) -> (map: ColumnMap)
        ensures
            map@ == project(table@.columns, rows_view(rows@), table@.columns.len() as int),
    {
        project_numeric(table, rows)
    }

    /// Compiles the update for the columns of `data`: parses the text
    /// after `SET` and generates the kernel for its assignments.
    ///
    /// A text that is not a list of assignments fails with the parser's
    /// message. Otherwise the outcome is that of
    /// [`crate::kernel::generate_kernel`] for the assignments: its failure,
    /// or the kernel.
    pub fn execute(&self, table: &TableDefinition, data: &ColumnMap) -> (r: Result<
        String,
        UpdateError,
    >)
        ensures
            match parse_program(self@.set_query) {
                Err(at) => r matches Err(UpdateError::Parse(message)) && message@ == error_text(at),
                Ok(list) => match kernel_check(table@.columns, names_of(data@), list) {
                    Some(e) => r matches Err(UpdateError::Kernel(x)) && x == e,
                    None => if list.len() > 0 && !searchable(names_of(data@)) {
                        r matches Err(UpdateError::Kernel(KernelError::InvalidPattern))
                    } else {
                        r matches Ok(source) && source@ == kernel_text(
                            table@.columns,
                            names_of(data@),
                            list,
                        )
                    },
                },
            },
    {
        match ExpressionParser::parse(self.set_query.as_str()) {
            Err(message) => Err(UpdateError::Parse(message)),
            Ok(program) => match generate_kernel(table, data, &program.assignments) {
                Ok(source) => Ok(source),
                Err(e) => Err(UpdateError::Kernel(e)),
            },
        }
    }
}

} // verus!
