//! Where a table is kept: its schema in one file and its rows in another,
//! both named by the table's name in lower case.

use crate::text::{chars_of, lower, lowercased, push_str, string_of};
use vstd::prelude::*;

verus! {

/// The path of the file that holds the schema of the table `name`.
pub open spec fn schema_path_of(name: Seq<char>) -> Seq<char> {
    "schema/"@ + lower(name) + "_def.bin"@
}

/// The path of the file that holds the rows of the table `name`.
pub open spec fn data_path_of(name: Seq<char>) -> Seq<char> {
    "data/"@ + lower(name) + "_data.bin"@
}

/// The path of the schema file of `table_name`, as [`schema_path_of`]
/// says.
pub fn schema_path(table_name: &str) -> (r: String)
    ensures
        r@ == schema_path_of(table_name@),
{
    let lower = lowercased(table_name);
    let mut out = chars_of("schema/");
    push_str(&mut out, lower.as_str());
    push_str(&mut out, "_def.bin");
    string_of(&out)
}

/// The path of the data file of `table_name`, as [`data_path_of`] says.
pub fn data_path(table_name: &str) -> (r: String)
    ensures
        r@ == data_path_of(table_name@),
{
    let lower = lowercased(table_name);
    let mut out = chars_of("data/");
    push_str(&mut out, lower.as_str());
    push_str(&mut out, "_data.bin");
    string_of(&out)
}

} // verus!
