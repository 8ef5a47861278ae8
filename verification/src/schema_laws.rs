//! What holds of writing a schema as a statement and reading it back.

use crate::schema::{
    column_from_sql, column_sql, columns_from, join, sql_type_name, table_from_sql, table_sql,
    type_of_name,
};
use crate::text::{
    ascii_upper, contains, index_of, is_space, lemma_find_from, lemma_find_from_is, occurs_at,
    split_by, trim, upper,
};
use crate::text_laws::{
    all_space, lacks, lemma_first_word, lemma_first_word_padded, lemma_occurs_char,
    lemma_occurs_chars, lemma_split_first, lemma_split_none, lemma_trim_fixed, lemma_trim_padded,
    lemma_trimmed_ends, no_space,
};
use crate::types::{ColumnSpec, DataType, TableSpec};
use vstd::prelude::*;
use vstd::utf8::is_ascii_chars;

verus! {

/// Whether `c` is a capital ASCII letter.
pub open spec fn is_capital(c: char) -> bool {
    'A' <= c <= 'Z'
}

/// Whether every character of `s` is a capital ASCII letter.
pub open spec fn all_capitals(s: Seq<char>) -> bool {
    forall|i: int| 0 <= i < s.len() ==> is_capital(#[trigger] s[i])
}

/// The name of a type is made of capitals, names that type and no other,
/// and has neither a `U` in it nor an `N` at its start.
pub proof fn lemma_type_name(t: DataType)
    ensures
        4 <= sql_type_name(t).len() <= 7,
        all_capitals(sql_type_name(t)),
        lacks(sql_type_name(t), 'U'),
        sql_type_name(t)[0] != 'N',
        type_of_name(sql_type_name(t)) == Some(t),
{
    reveal_strlit("INTEGER");
    reveal_strlit("FLOAT");
    reveal_strlit("TEXT");
    reveal_strlit("BOOLEAN");
}

/// A text of capitals has no white space and no comma, and is itself in
/// upper case.
pub proof fn lemma_capitals(s: Seq<char>)
    requires
        all_capitals(s),
    ensures
        no_space(s),
        lacks(s, ','),
        upper(s) == s,
{
    assert forall|i: int| 0 <= i < s.len() implies !is_space(#[trigger] s[i]) by {
        assert(is_capital(s[i]));
    }
    assert forall|i: int| 0 <= i < s.len() implies #[trigger] s[i] != ',' by {
        assert(is_capital(s[i]));
    }
    assert(is_ascii_chars(s)) by {
        assert forall|i: int| 0 <= i < s.len() implies '\0' <= #[trigger] s[i] <= '\u{7f}' by {
            assert(is_capital(s[i]));
        }
    }
    assert(ascii_upper(s) =~= s) by {
        assert forall|i: int| 0 <= i < s.len() implies ascii_upper(s)[i] == s[i] by {
            assert(is_capital(s[i]));
        }
    }
}

/// The flags of a column as they are written after its type.
pub open spec fn column_flags(c: ColumnSpec) -> Seq<char> {
    (if c.nullable {
        Seq::empty()
    } else {
        " NOT NULL"@
    }) + (if c.unique {
        " UNIQUE"@
    } else {
        Seq::empty()
    })
}

/// Among the flags, `NOT NULL` stands exactly where the column may not be
/// null, and `UNIQUE` exactly where it is unique. A column's declaration
/// is its name, a space, its type and its flags.
pub proof fn lemma_column_flags(c: ColumnSpec)
    ensures
        column_sql(c) == c.name + " "@ + sql_type_name(c.data_type) + column_flags(c),
        column_flags(c).len() > 0 ==> column_flags(c)[0] == ' ' && is_capital(
            column_flags(c).last(),
        ),
        lacks(column_flags(c), ','),
        contains(column_flags(c), "NOT NULL"@) == !c.nullable,
        contains(column_flags(c), "UNIQUE"@) == c.unique,
{
    let flags = column_flags(c);
    reveal_strlit(" NOT NULL");
    reveal_strlit(" UNIQUE");
    reveal_strlit("NOT NULL");
    reveal_strlit("UNIQUE");
    assert(column_sql(c) =~= c.name + " "@ + sql_type_name(c.data_type) + flags);
    lemma_contains(flags, "NOT NULL"@);
    lemma_contains(flags, "UNIQUE"@);
    assert forall|j: int| occurs_at(flags, "NOT NULL"@, j) implies !c.nullable by {
        let p = "NOT NULL"@;
        lemma_occurs_chars(flags, p, j);
        assert(flags[j + 0] == p[0] && flags[j + 1] == p[1] && flags[j + 3] == p[3] && flags[j
            + 4] == p[4]);
    }
    assert forall|j: int| occurs_at(flags, "UNIQUE"@, j) implies c.unique by {
        let p = "UNIQUE"@;
        lemma_occurs_chars(flags, p, j);
        assert(flags[j + 0] == p[0] && flags[j + 1] == p[1] && flags[j + 2] == p[2]);
    }
    if !c.nullable {
        assert(flags.subrange(1, 9) =~= "NOT NULL"@);
        assert(occurs_at(flags, "NOT NULL"@, 1));
    }
    if c.unique {
        let at = flags.len() - 6;
        assert(flags.subrange(at, at + 6) =~= "UNIQUE"@);
        assert(occurs_at(flags, "UNIQUE"@, at));
    }
}

/// Whether `pat` stands somewhere in `s`, said with the place.
pub proof fn lemma_contains(s: Seq<char>, pat: Seq<char>)
    ensures
        contains(s, pat) == exists|j: int| occurs_at(s, pat, j),
{
    lemma_find_from(s, pat, 0);
    if contains(s, pat) {
        assert(occurs_at(s, pat, index_of(s, pat)->0));
    }
}

/// Whether a column's declaration can be read back: its name is not
/// empty and has no white space and no comma in it.
pub open spec fn writable_column(c: ColumnSpec) -> bool {
    &&& c.name.len() > 0
    &&& no_space(c.name)
    &&& lacks(c.name, ',')
}

/// Reading the declaration that was written for a column gives the column.
pub proof fn lemma_column_round_trip(c: ColumnSpec)
    requires
        writable_column(c),
    ensures
        column_from_sql(column_sql(c)) == Some(c),
{
    let ty = sql_type_name(c.data_type);
    let flags = column_flags(c);
    let text = column_sql(c);
    lemma_column_flags(c);
    lemma_type_name(c.data_type);
    lemma_capitals(ty);
    reveal_strlit(" ");
    assert(text =~= c.name + (" "@ + ty + flags));
    lemma_first_word(c.name, " "@ + ty + flags);
    assert(all_space(" "@));
    assert(" "@ + ty + flags =~= " "@ + (ty + flags));
    lemma_first_word_padded(" "@, ty + flags);
    lemma_first_word(ty, flags);
}

/// Whether the statement written for a table can be read back: the name
/// has no white space around it and no `(` in it, there is a column, and
/// every column's declaration can be read back.
pub open spec fn writable(t: TableSpec) -> bool {
    &&& trim(t.name) == t.name
    &&& lacks(t.name, '(')
    &&& t.columns.len() > 0
    &&& forall|k: int| 0 <= k < t.columns.len() ==> writable_column(#[trigger] t.columns[k])
}

/// Whether a text can stand as a piece between commas and be found again:
/// it is not empty, has no comma, and neither begins nor ends with white
/// space.
pub open spec fn is_piece(s: Seq<char>) -> bool {
    s.len() > 0 && lacks(s, ',') && !is_space(s[0]) && !is_space(s.last())
}

/// The declaration of a column that can be read back is a piece.
pub proof fn lemma_column_is_piece(c: ColumnSpec)
    requires
        writable_column(c),
    ensures
        is_piece(column_sql(c)),
{
    lemma_column_flags(c);
    lemma_type_name(c.data_type);
    let ty = sql_type_name(c.data_type);
    lemma_capitals(ty);
    reveal_strlit(" ");
    let text = column_sql(c);
    let tail = " "@ + ty + column_flags(c);
    assert(text =~= c.name + tail);
    assert(text[0] == c.name[0]);
    assert(is_capital(text.last())) by {
        if column_flags(c).len() > 0 {
            assert(text.last() == column_flags(c).last());
        } else {
            assert(text.last() == ty.last());
        }
    }
    assert forall|i: int| 0 <= i < text.len() implies #[trigger] text[i] != ',' by {
        if i < c.name.len() {
            assert(text[i] == c.name[i]);
        } else if i == c.name.len() {
            assert(text[i] == ' ');
        } else if i < c.name.len() + 1 + ty.len() {
            assert(text[i] == ty[i - c.name.len() - 1]);
        } else {
            assert(text[i] == column_flags(c)[i - c.name.len() - 1 - ty.len()]);
        }
    }
}

/// Parts joined by a separator: the first part, the separator, and the
/// other parts joined.
pub proof fn lemma_join_front(parts: Seq<Seq<char>>, sep: Seq<char>)
    requires
        parts.len() >= 2,
    ensures
        join(parts, sep) == parts[0] + sep + join(parts.skip(1), sep),
    decreases parts.len(),
{
    let rest = parts.skip(1);
    if parts.len() == 2 {
        assert(parts.drop_last() =~= seq![parts[0]]);
        assert(rest =~= seq![parts[1]]);
        assert(join(parts.drop_last(), sep) == parts[0]);
        assert(join(rest, sep) == parts[1]);
    } else {
        lemma_join_front(parts.drop_last(), sep);
        assert(parts.drop_last().skip(1) =~= rest.drop_last());
        assert(parts.drop_last()[0] == parts[0]);
        assert(rest.last() == parts.last());
        assert(join(parts, sep) =~= parts[0] + sep + join(rest, sep));
    }
}

/// Pieces joined begin as the first piece does and end as the last.
pub proof fn lemma_join_ends(parts: Seq<Seq<char>>, sep: Seq<char>)
    requires
        parts.len() >= 1,
        forall|k: int| 0 <= k < parts.len() ==> (#[trigger] parts[k]).len() > 0,
    ensures
        join(parts, sep).len() > 0,
        join(parts, sep)[0] == parts[0][0],
        join(parts, sep).last() == parts.last().last(),
    decreases parts.len(),
{
    if parts.len() > 1 {
        let front = parts.drop_last();
        assert forall|k: int| 0 <= k < front.len() implies (#[trigger] front[k]).len() > 0 by {
            assert(front[k] == parts[k]);
        }
        lemma_join_ends(front, sep);
        assert(front[0] == parts[0]);
    }
}

/// The white space that stands after the comma between two declarations.
pub open spec fn indent() -> Seq<char> {
    "\n  "@
}

/// Splitting joined pieces at the commas gives the pieces back, each
/// behind the white space that followed the comma before it.
pub proof fn lemma_split_join(parts: Seq<Seq<char>>)
    requires
        parts.len() >= 1,
        forall|k: int| 0 <= k < parts.len() ==> is_piece(#[trigger] parts[k]),
    ensures
        split_by(indent() + join(parts, ",\n  "@), ","@) == parts.map_values(
            |p: Seq<char>| indent() + p,
        ),
    decreases parts.len(),
{
    reveal_strlit(",");
    reveal_strlit("\n  ");
    reveal_strlit(",\n  ");
    let sep = ",\n  "@;
    let comma = ","@;
    let first = indent() + parts[0];
    assert(is_piece(parts[0]));
    assert forall|i: int| 0 <= i < first.len() implies #[trigger] first[i] != ',' by {
        if i >= 3 {
            assert(first[i] == parts[0][i - 3]);
        }
    }
    if parts.len() == 1 {
        assert forall|i: int| !occurs_at(first, comma, i) by {
            lemma_occurs_char(first, comma, i);
        }
        lemma_split_none(first, comma);
        assert(parts.map_values(|p: Seq<char>| indent() + p) =~= seq![first]);
    } else {
        let rest = parts.skip(1);
        lemma_join_front(parts, sep);
        let after = indent() + join(rest, sep);
        let whole = indent() + join(parts, sep);
        assert(sep =~= comma + indent());
        assert(whole =~= first + comma + after);
        assert forall|i: int| 0 <= i < first.len() implies !occurs_at(
            first + comma + after,
            comma,
            i,
        ) by {
            lemma_occurs_char(first + comma + after, comma, i);
            assert((first + comma + after)[i] == first[i]);
        }
        lemma_split_first(first, comma, after);
        assert forall|k: int| 0 <= k < rest.len() implies is_piece(#[trigger] rest[k]) by {
            assert(rest[k] == parts[k + 1]);
        }
        lemma_split_join(rest);
        assert(parts.map_values(|p: Seq<char>| indent() + p) =~= seq![first] + rest.map_values(
            |p: Seq<char>| indent() + p,
        ));
    }
}

/// Pieces that each declare a column give those columns, in order.
pub proof fn lemma_columns_from(pieces: Seq<Seq<char>>, columns: Seq<ColumnSpec>)
    requires
        pieces.len() == columns.len(),
        forall|k: int|
            0 <= k < pieces.len() ==> column_from_sql(trim(#[trigger] pieces[k])) == Some(
                columns[k],
            ),
    ensures
        columns_from(pieces) == columns,
    decreases pieces.len(),
{
    if pieces.len() == 0 {
        assert(columns =~= Seq::empty());
    } else {
        let front = pieces.drop_last();
        assert forall|k: int| 0 <= k < front.len() implies column_from_sql(
            trim(#[trigger] front[k]),
        ) == Some(columns.drop_last()[k]) by {
            assert(front[k] == pieces[k]);
        }
        lemma_columns_from(front, columns.drop_last());
        assert(columns.drop_last().push(columns.last()) =~= columns);
    }
}

/// Reading the statement that was written for a table gives the table.
pub proof fn lemma_schema_round_trip(t: TableSpec)
    requires
        writable(t),
    ensures
        table_from_sql(table_sql(t)) == Some(t),
{
    reveal_strlit("CREATE TABLE ");
    reveal_strlit("CREATE TABLE");
    reveal_strlit(" (\n  ");
    reveal_strlit("\n);");
    reveal_strlit(");");
    reveal_strlit("(");
    reveal_strlit("\n  ");
    reveal_strlit(",");
    let head = "CREATE TABLE "@;
    let mid = " (\n  "@;
    let end = "\n);"@;
    let sep = ",\n  "@;
    let texts = t.columns.map_values(|c: ColumnSpec| column_sql(c));
    let joined = join(texts, sep);
    let sql = table_sql(t);
    let open = (13 + t.name.len() + 1) as int;
    assert forall|k: int| 0 <= k < texts.len() implies is_piece(#[trigger] texts[k]) by {
        lemma_column_is_piece(t.columns[k]);
    }
    lemma_join_ends(texts, sep);
    assert(sql =~= head + t.name + mid + joined + end);
    assert(sql.len() == 13 + t.name.len() + 5 + joined.len() + 3);
    // The statement has no white space around it.
    assert(sql[0] == head[0]);
    assert(sql.last() == end[2]);
    lemma_trim_fixed(sql);
    // It begins and ends as a statement must.
    assert(sql.subrange(0, 12) =~= "CREATE TABLE"@);
    assert(sql.subrange(sql.len() - 2, sql.len() as int) =~= ");"@) by {
        assert(sql[sql.len() - 2] == end[1]);
        assert(sql[sql.len() - 1] == end[2]);
    }
    // The first bracket is the one that was written after the name.
    assert(sql[open] == mid[1]);
    assert forall|j: int| 0 <= j < open implies !occurs_at(sql, "("@, j) by {
        lemma_occurs_char(sql, "("@, j);
        if j < 13 {
            assert(sql[j] == head[j]);
        } else if j < 13 + t.name.len() {
            assert(sql[j] == t.name[j - 13]);
        } else {
            assert(sql[j] == mid[0]);
        }
    }
    lemma_occurs_char(sql, "("@, open);
    lemma_find_from_is(sql, "("@, 0, open);
    // The name is what stands before it.
    assert(sql.subrange(13, open) =~= Seq::<char>::empty() + t.name + " "@) by {
        reveal_strlit(" ");
    }
    assert(all_space(" "@) && all_space(Seq::<char>::empty())) by {
        reveal_strlit(" ");
    }
    if t.name.len() > 0 {
        lemma_trimmed_ends(t.name);
    }
    lemma_trim_padded(Seq::empty(), t.name, " "@);
    // The columns are what stands between the brackets.
    let inner = sql.subrange(open + 1, sql.len() - 2);
    assert(inner =~= indent() + joined + "\n"@) by {
        reveal_strlit("\n");
    }
    assert(all_space(indent()) && all_space("\n"@)) by {
        reveal_strlit("\n");
    }
    assert(is_piece(texts[0]) && is_piece(texts.last()));
    lemma_trim_padded(indent(), joined, "\n"@);
    // The pieces between the commas are the declarations.
    let pieces = split_by(joined, ","@);
    let padded = texts.map_values(|p: Seq<char>| indent() + p);
    lemma_split_join(texts);
    let written = Seq::new(
        texts.len(),
        |k: int|
            if k == 0 {
                texts[0]
            } else {
                padded[k]
            },
    );
    assert(pieces =~= written) by {
        if texts.len() == 1 {
            assert(joined == texts[0]);
            assert forall|i: int| !occurs_at(joined, ","@, i) by {
                lemma_occurs_char(joined, ","@, i);
            }
            lemma_split_none(joined, ","@);
        } else {
            let rest = texts.skip(1);
            lemma_join_front(texts, sep);
            reveal_strlit(",\n  ");
            assert(sep =~= ","@ + indent());
            let after = indent() + join(rest, sep);
            assert(joined =~= texts[0] + ","@ + after);
            assert forall|i: int| 0 <= i < texts[0].len() implies !occurs_at(
                texts[0] + ","@ + after,
                ","@,
                i,
            ) by {
                lemma_occurs_char(texts[0] + ","@ + after, ","@, i);
                assert((texts[0] + ","@ + after)[i] == texts[0][i]);
            }
            lemma_split_first(texts[0], ","@, after);
            assert forall|k: int| 0 <= k < rest.len() implies is_piece(#[trigger] rest[k]) by {
                assert(rest[k] == texts[k + 1]);
            }
            lemma_split_join(rest);
        }
    }
    assert forall|k: int| 0 <= k < written.len() implies column_from_sql(
        trim(#[trigger] written[k]),
    ) == Some(t.columns[k]) by {
        assert(is_piece(texts[k]));
        lemma_column_round_trip(t.columns[k]);
        if k == 0 {
            lemma_trim_fixed(texts[0]);
        } else {
            lemma_trim_padded(indent(), texts[k], Seq::empty());
            assert(indent() + texts[k] + Seq::<char>::empty() =~= padded[k]);
        }
    }
    lemma_columns_from(written, t.columns);
}

} // verus!
