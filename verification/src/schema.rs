//! `CREATE TABLE`: reading a schema from the statement and writing the
//! statement for a schema.
//!
//! ```text
//! CREATE TABLE <name> ( <column> (, <column>)* );
//! column = <name> <TYPE> [NOT NULL] [UNIQUE]
//! ```

use crate::text::{
    after_word, chars_of, contains, ends_with, find, first_word, has_prefix, has_suffix,
    includes, index_of, next_word, push_str, same_str, slice_of, split, split_by, starts_with,
    string_from, string_of, trim, trimmed, upper, uppercased,
};
use crate::types::{ColumnDefinition, ColumnSpec, DataType, TableDefinition, TableSpec};
use vstd::prelude::*;

verus! {

/// The type that a name in upper case stands for.
pub open spec fn type_of_name(name: Seq<char>) -> Option<DataType> {
    if name == "INTEGER"@ {
        Some(DataType::Integer)
    } else if name == "FLOAT"@ {
        Some(DataType::Float)
    } else if name == "TEXT"@ {
        Some(DataType::Text)
    } else if name == "BOOLEAN"@ {
        Some(DataType::Boolean)
    } else {
        None
    }
}

/// The name of a type in a statement.
pub open spec fn sql_type_name(t: DataType) -> Seq<char> {
    match t {
        DataType::Integer => "INTEGER"@,
        DataType::Float => "FLOAT"@,
        DataType::Text => "TEXT"@,
        DataType::Boolean => "BOOLEAN"@,
    }
}

impl DataType {
    /// The type that `sql_type` names, in whatever case it is written.
    pub fn from_sql_type(sql_type: &str) -> (r: Option<DataType>)
        ensures
            r == type_of_name(upper(sql_type@)),
    {
        let name = uppercased(sql_type);
        if same_str(name.as_str(), "INTEGER") {
            Some(DataType::Integer)
        } else if same_str(name.as_str(), "FLOAT") {
            Some(DataType::Float)
        } else if same_str(name.as_str(), "TEXT") {
            Some(DataType::Text)
        } else if same_str(name.as_str(), "BOOLEAN") {
            Some(DataType::Boolean)
        } else {
            None
        }
    }

    /// The type's name in a statement.
    pub fn to_sql_type(&self) -> (r: &'static str)
        ensures
            r@ == sql_type_name(*self),
    {
        match self {
            DataType::Integer => "INTEGER",
            DataType::Float => "FLOAT",
            DataType::Text => "TEXT",
            DataType::Boolean => "BOOLEAN",
        }
    }

    /// The name of the host type that holds a value of this type.
    pub fn rust_type(&self) -> (r: &'static str)
        ensures
            r@ == match *self {
                DataType::Integer => "i32"@,
                DataType::Float => "f32"@,
                DataType::Text => "String"@,
                DataType::Boolean => "bool"@,
            },
    {
        match self {
            DataType::Integer => "i32",
            DataType::Float => "f32",
            DataType::Text => "String",
            DataType::Boolean => "bool",
        }
    }
}

/// The column that the text `s` declares: its first word is the name and
/// its second names the type. It may be null unless `NOT NULL` stands
/// somewhere after the second word, and is unique if `UNIQUE` does. A
/// text of fewer than two words, or whose second word names no type,
/// declares none.
pub open spec fn column_from_sql(s: Seq<char>) -> Option<ColumnSpec> {
    let name = first_word(s);
    let type_word = first_word(after_word(s));
    let flags = after_word(after_word(s));
    if name.len() == 0 || type_word.len() == 0 {
        None
    } else {
        match type_of_name(upper(type_word)) {
            None => None,
            Some(t) => Some(
                ColumnSpec {
                    name,
                    data_type: t,
                    nullable: !contains(flags, "NOT NULL"@),
                    unique: contains(flags, "UNIQUE"@),
                },
            ),
        }
    }
}

/// The text that declares the column.
pub open spec fn column_sql(c: ColumnSpec) -> Seq<char> {
    c.name + " "@ + sql_type_name(c.data_type) + (if c.nullable {
        Seq::empty()
    } else {
        " NOT NULL"@
    }) + (if c.unique {
        " UNIQUE"@
    } else {
        Seq::empty()
    })
}

impl ColumnDefinition {
    /// Reads a column's declaration, as [`column_from_sql`] says.
    pub fn from_sql(sql: &str) -> (r: Option<ColumnDefinition>)
        ensures
            match column_from_sql(sql@) {
                Some(c) => r matches Some(x) && x@ == c,
                None => r is None,
            },
    {
        let text = chars_of(sql);
        let (name_from, name_to) = next_word(&text, 0);
        let (type_from, type_to) = next_word(&text, name_to);
        assert(text@.skip(0) =~= text@);
        if name_from == name_to || type_from == type_to {
            return None;
        }
        let type_word = string_from(&text, type_from, type_to);
        let data_type = match DataType::from_sql_type(type_word.as_str()) {
            Some(t) => t,
            None => {
                return None;
            },
        };
        let flags = slice_of(&text, type_to, text.len());
        assert(flags@ =~= text@.skip(type_to as int));
        let not_null = chars_of("NOT NULL");
        let unique = chars_of("UNIQUE");
        Some(
            ColumnDefinition {
                name: string_from(&text, name_from, name_to),
                data_type,
                nullable: !includes(&flags, &not_null),
                unique: includes(&flags, &unique),
            },
        )
    }

    /// Writes the column's declaration, as [`column_sql`] says.
    pub fn to_sql(&self) -> (r: String)
        ensures
            r@ == column_sql(self@),
    {
        let mut out: Vec<char> = chars_of(self.name.as_str());
        push_str(&mut out, " ");
        push_str(&mut out, self.data_type.to_sql_type());
        if !self.nullable {
            push_str(&mut out, " NOT NULL");
        }
        if self.unique {
            push_str(&mut out, " UNIQUE");
        }
        let r = string_of(&out);
        assert(r@ =~= column_sql(self@));
        r
    }
}

/// The columns that the pieces declare, in order; a piece that declares
/// none is passed over. Each piece is read without the white space around
/// it.
pub open spec fn columns_from(pieces: Seq<Seq<char>>) -> Seq<ColumnSpec>
    decreases pieces.len(),
{
    if pieces.len() == 0 {
        Seq::empty()
    } else {
        let before = columns_from(pieces.drop_last());
        match column_from_sql(trim(pieces.last())) {
            Some(c) => before.push(c),
            None => before,
        }
    }
}

/// The table that the statement `sql` creates. Without the white space
/// around it, the statement begins with `CREATE TABLE`, ends with `);`
/// and has a `(`. The name stands from the fourteenth character to the
/// first `(`; the columns stand between that `(` and the `);`, separated
/// by commas. A statement that declares no column creates no table.
pub open spec fn table_from_sql(sql: Seq<char>) -> Option<TableSpec> {
    let s = trim(sql);
    if !has_prefix(s, "CREATE TABLE"@) || !has_suffix(s, ");"@) {
        None
    } else {
        match index_of(s, "("@) {
            None => None,
            Some(open) => if open < 13 {
                None
            } else {
                let columns = columns_from(
                    split_by(trim(s.subrange(open + 1, s.len() - 2)), ","@),
                );
                if columns.len() == 0 {
                    None
                } else {
                    Some(TableSpec { name: trim(s.subrange(13, open)), columns })
                }
            },
        }
    }
}

/// The parts with `sep` between them.
pub open spec fn join(parts: Seq<Seq<char>>, sep: Seq<char>) -> Seq<char>
    decreases parts.len(),
{
    if parts.len() == 0 {
        Seq::empty()
    } else if parts.len() == 1 {
        parts[0]
    } else {
        join(parts.drop_last(), sep) + sep + parts.last()
    }
}

/// The statement that creates the table.
pub open spec fn table_sql(t: TableSpec) -> Seq<char> {
    "CREATE TABLE "@ + t.name + " (\n  "@ + join(
        t.columns.map_values(|c: ColumnSpec| column_sql(c)),
        ",\n  "@,
    ) + "\n);"@
}

impl TableDefinition {
    /// Reads a `CREATE TABLE` statement, as [`table_from_sql`] says.
    pub fn from_sql(sql: &str) -> (r: Option<TableDefinition>)
        ensures
            match table_from_sql(sql@) {
                Some(t) => r matches Some(x) && x@ == t,
                None => r is None,
            },
    {
        let raw = chars_of(sql);
        let s = trimmed(&raw);
        let head = chars_of("CREATE TABLE");
        let tail = chars_of(");");
        let paren = chars_of("(");
        let comma = chars_of(",");
        if !starts_with(&s, &head) || !ends_with(&s, &tail) {
            return None;
        }
        let open = match find(&s, &paren) {
            Some(i) => i,
            None => {
                return None;
            },
        };
        if open < 13 {
            return None;
        }
        proof {
            reveal_strlit("(");
            reveal_strlit(");");
            crate::text::lemma_find_from(s@, "("@, 0);
            assert(s@.subrange(open as int, open + 1)[0] == '(');
            assert(s@.subrange(s@.len() - 2, s@.len() as int)[0] == ')');
            assert(s@.subrange(s@.len() - 2, s@.len() as int)[1] == ';');
        }
        let name = trimmed(&slice_of(&s, 13, open));
        let inner = trimmed(&slice_of(&s, open + 1, s.len() - 2));
        let pieces = split(&inner, &comma);
        let ghost spec_pieces = split_by(inner@, ","@);
        let mut columns: Vec<ColumnDefinition> = Vec::new();
        let mut i: usize = 0;
        assert(spec_pieces.take(0) =~= Seq::<Seq<char>>::empty());
        while i < pieces.len()
            invariant
                i <= pieces.len(),
                spec_pieces == pieces@.map_values(|p: Vec<char>| p@),
                columns@.map_values(|c: ColumnDefinition| c@) == columns_from(
                    spec_pieces.take(i as int),
                ),
            decreases pieces.len() - i,
        {
            let ghost before = columns@.map_values(|c: ColumnDefinition| c@);
            assert(spec_pieces.take(i + 1).drop_last() =~= spec_pieces.take(i as int));
            assert(spec_pieces.take(i + 1).last() == pieces@[i as int]@);
            let piece = string_of(&trimmed(&pieces[i]));
            match ColumnDefinition::from_sql(piece.as_str()) {
                Some(c) => {
                    let ghost spec_c = c@;
                    columns.push(c);
                    assert(columns@.map_values(|c: ColumnDefinition| c@) =~= before.push(spec_c));
                },
                None => {},
            }
            i = i + 1;
        }
        assert(spec_pieces.take(pieces.len() as int) =~= spec_pieces);
        if columns.len() == 0 {
            return None;
        }
        Some(TableDefinition { name: string_of(&name), columns })
    }

    /// Writes the `CREATE TABLE` statement for the table, as [`table_sql`]
    /// says.
    pub fn to_sql(&self) -> (r: String)
        ensures
            r@ == table_sql(self@),
    {
        let ghost texts = self@.columns.map_values(|c: ColumnSpec| column_sql(c));
        let mut out: Vec<char> = chars_of("CREATE TABLE ");
        push_str(&mut out, self.name.as_str());
        push_str(&mut out, " (\n  ");
        let ghost head = out@;
        let mut i: usize = 0;
        assert(head + join(texts.take(0), ",\n  "@) =~= head);
        while i < self.columns.len()
            invariant
                i <= self.columns.len(),
                texts == self@.columns.map_values(|c: ColumnSpec| column_sql(c)),
                out@ == head + join(texts.take(i as int), ",\n  "@),
            decreases self.columns.len() - i,
        {
            assert(texts.take(i + 1).drop_last() =~= texts.take(i as int));
            assert(texts.take(i + 1).last() == column_sql(self.columns@[i as int]@));
            if i > 0 {
                push_str(&mut out, ",\n  ");
            }
            let column = self.columns[i].to_sql();
            push_str(&mut out, column.as_str());
            assert(out@ =~= head + join(texts.take(i + 1), ",\n  "@)) by {
                if i == 0 {
                    assert(texts.take(1)[0] == column@);
                }
            }
            i = i + 1;
        }
        assert(texts.take(self.columns.len() as int) =~= texts);
        push_str(&mut out, "\n);");
        let r = string_of(&out);
        assert(r@ =~= table_sql(self@));
        r
    }
}

} // verus!
