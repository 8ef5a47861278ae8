//! The kernel generator: from a table's numeric columns and the
//! assignments of an `UPDATE` statement to the source of a compute kernel
//! in which every row is one lane.
//!
//! The kernel binds each column as a storage array, in the order of the
//! column map, and rewrites each assignment so that a column's name reads
//! and writes that column at the lane's index.

use crate::literal::{decimal_text, push_decimal};
use crate::parser::{assignments_view, Assignment, AssignmentSpec};
use crate::text::{chars_of, mentions, mentions_word, push_str, same_str, string_of};
use crate::types::{
    ColumnMap, ColumnMapSpec, ColumnSpec, DataType, TableDefinition, ValueSpec,
};
use vstd::prelude::*;

verus! {

/// Why no kernel can be generated.
#[derive(Clone, Copy, Debug, PartialEq, Eq, Structural)]
pub enum KernelError {
    /// The column map is empty, so there is no array to take the number of
    /// rows from.
    NoColumns,
    /// A column of the map is not a numeric column of the table.
    NotNumeric,
    /// The right-hand side of an assignment names a column of the table
    /// that is not numeric.
    NonNumericReference,
    /// A column's name cannot be searched for as a whole word.
    InvalidPattern,
}

/// Whether `regex::Regex::new` compiles the regular expression with the
/// source `pattern`.
pub uninterp spec fn regex_compiles(pattern: Seq<char>) -> bool;

/// What `regex::Regex::replace_all` returns for a regular expression with
/// the source `pattern`, the haystack `text` and the replacement
/// `replacement`.
pub uninterp spec fn regex_replaced(
    pattern: Seq<char>,
    text: Seq<char>,
    replacement: Seq<char>,
) -> Seq<char>;

/// Compiles `pattern` with `regex::Regex::new` and rewrites `text` with
/// `regex::Regex::replace_all`. There is a result exactly where the
/// pattern compiles, and it is what `replace_all` gives.
#[verifier::external_body]
fn replace_all(pattern: &str, text: &str, replacement: &str) -> (r: Option<String>)
    ensures
        r is Some == regex_compiles(pattern@),
        r matches Some(s) ==> s@ == regex_replaced(pattern@, text@, replacement@),
{
    match regex::Regex::new(pattern) {
        Ok(re) => Some(re.replace_all(text, replacement).into_owned()),
        Err(_) => None,
    }
}

/// The type of the first column named `name`.
pub open spec fn column_type(columns: Seq<ColumnSpec>, name: Seq<char>) -> Option<DataType>
    decreases columns.len(),
{
    if columns.len() == 0 {
        None
    } else if columns[0].name == name {
        Some(columns[0].data_type)
    } else {
        column_type(columns.skip(1), name)
    }
}

/// Whether `name` is a numeric column of the table.
pub open spec fn is_numeric_column(columns: Seq<ColumnSpec>, name: Seq<char>) -> bool {
    column_type(columns, name) matches Some(t) && t.is_numeric()
}

impl TableDefinition {
    /// The type of the first column named `name`, if there is one.
    pub fn column_type(&self, name: &str) -> (r: Option<DataType>)
        ensures
            r == column_type(self@.columns, name@),
    {
        let mut i: usize = 0;
        assert(self@.columns.skip(0) =~= self@.columns);
        while i < self.columns.len()
            invariant
                i <= self.columns.len(),
                column_type(self@.columns, name@) == column_type(
                    self@.columns.skip(i as int),
                    name@,
                ),
            decreases self.columns.len() - i,
        {
            assert(self@.columns.skip(i as int)[0] == self.columns@[i as int]@);
            assert(self@.columns.skip(i as int).skip(1) =~= self@.columns.skip(i + 1));
            if same_str(self.columns[i].name.as_str(), name) {
                return Some(self.columns[i].data_type);
            }
            i = i + 1;
        }
        None
    }
}

/// The names of a column map's columns, in order.
pub open spec fn names_of(map: ColumnMapSpec) -> Seq<Seq<char>> {
    map.map_values(|c: (Seq<char>, Seq<ValueSpec>)| c.0)
}

/// The regular expression that finds `name` as a whole word.
pub open spec fn word_pattern(name: Seq<char>) -> Seq<char> {
    "\\b"@ + name + "\\b"@
}

/// What a column's name is replaced with: the column at the lane's index.
pub open spec fn indexed(name: Seq<char>) -> Seq<char> {
    name + "[sys_index]"@
}

/// Whether every one of the names can be searched for as a whole word:
/// the pattern made of it compiles.
pub open spec fn searchable(names: Seq<Seq<char>>) -> bool {
    forall|k: int| 0 <= k < names.len() ==> regex_compiles(word_pattern(#[trigger] names[k]))
}

/// `expr` after the names have been replaced, one after the other and each
/// in all of the text that the earlier replacements left.
pub open spec fn substituted(expr: Seq<char>, names: Seq<Seq<char>>) -> Seq<char>
    decreases names.len(),
{
    if names.len() == 0 {
        expr
    } else {
        substituted(
            regex_replaced(word_pattern(names[0]), expr, indexed(names[0])),
            names.skip(1),
        )
    }
}

/// The type of a column's array in the kernel.
pub open spec fn array_type(t: DataType) -> Seq<char> {
    match t {
        DataType::Integer => "array<i32>"@,
        DataType::Float => "array<f32>"@,
        _ => "array<unknown>"@,
    }
}

/// The declaration that binds the column `name` of type `t` at index `k`.
pub open spec fn binding(k: nat, name: Seq<char>, t: DataType) -> Seq<char> {
    "@group(0)\n@binding("@ + decimal_text(k) + ")\nvar<storage, read_write> "@ + name + ": "@
        + array_type(t) + ";\n\n"@
}

/// The declarations of the first `n` names, bound at the indices `0` to
/// `n - 1` in order.
pub open spec fn bindings(columns: Seq<ColumnSpec>, names: Seq<Seq<char>>, n: int) -> Seq<char>
    decreases n,
{
    if n <= 0 {
        Seq::empty()
    } else {
        bindings(columns, names, n - 1) + binding(
            (n - 1) as nat,
            names[n - 1],
            column_type(columns, names[n - 1]).unwrap(),
        )
    }
}

/// The head of the entry point: `main`, with 64 lanes to a workgroup,
/// which computes the lane's row and guards it by the length of the
/// column `first`.
pub open spec fn entry_point(first: Seq<char>) -> Seq<char> {
    "@compute\n@workgroup_size(64, 1, 1)\nfn main(@builtin(global_invocation_id) gid: vec3<u32>,\n        @builtin(local_invocation_id) lid: vec3<u32>,\n        @builtin(workgroup_id) wid: vec3<u32>) {\n    let sys_index = wid.x * 64u + lid.x;\n    if (sys_index < arrayLength(&"@
        + first + ")) {\n"@
}

/// The kernel's statement for one assignment, given the right-hand side
/// after substitution: a store into the column where the variable is a
/// bound column, and the declaration of a temporary otherwise.
pub open spec fn statement(names: Seq<Seq<char>>, variable: Seq<char>, rhs: Seq<char>) -> Seq<
    char,
> {
    if names.contains(variable) {
        "        "@ + variable + "[sys_index] = "@ + rhs + ";\n"@
    } else {
        "        let "@ + variable + " = "@ + rhs + ";\n"@
    }
}

/// The statements of the first `n` assignments, in order.
pub open spec fn statements(names: Seq<Seq<char>>, assignments: Seq<AssignmentSpec>, n: int) -> Seq<
    char,
>
    decreases n,
{
    if n <= 0 {
        Seq::empty()
    } else {
        statements(names, assignments, n - 1) + statement(
            names,
            assignments[n - 1].variable,
            substituted(assignments[n - 1].expression, names),
        )
    }
}

/// The source of the kernel.
pub open spec fn kernel_text(
    columns: Seq<ColumnSpec>,
    names: Seq<Seq<char>>,
    assignments: Seq<AssignmentSpec>,
) -> Seq<char> {
    bindings(columns, names, names.len() as int) + entry_point(names[0]) + statements(
        names,
        assignments,
        assignments.len() as int,
    ) + "    }\n}\n"@
}

/// Whether `expr` names, as a whole word, a column of the table that is
/// not numeric.
pub open spec fn references_non_numeric(columns: Seq<ColumnSpec>, expr: Seq<char>) -> bool {
    exists|j: int|
        0 <= j < columns.len() && !(#[trigger] columns[j]).data_type.is_numeric() && mentions_word(
            expr,
            columns[j].name,
        )
}

/// Whether a kernel can be asked for, and if not, why: the first of the
/// reasons that holds, in the order of [`KernelError`].
pub open spec fn kernel_check(
    columns: Seq<ColumnSpec>,
    names: Seq<Seq<char>>,
    assignments: Seq<AssignmentSpec>,
) -> Option<KernelError> {
    if names.len() == 0 {
        Some(KernelError::NoColumns)
    } else if exists|k: int| 0 <= k < names.len() && !is_numeric_column(columns, #[trigger] names[k]) {
        Some(KernelError::NotNumeric)
    } else if exists|a: int|
        0 <= a < assignments.len() && references_non_numeric(
            columns,
            (#[trigger] assignments[a]).expression,
        ) {
        Some(KernelError::NonNumericReference)
    } else {
        None
    }
}

/// Executable form of [`references_non_numeric`].
pub fn names_non_numeric(table: &TableDefinition, expr: &str) -> (b: bool)
    ensures
        b == references_non_numeric(table@.columns, expr@),
{
    let text = chars_of(expr);
    let mut j: usize = 0;
    while j < table.columns.len()
        invariant
            j <= table.columns.len(),
            text@ == expr@,
            forall|i: int|
                0 <= i < j ==> !(!(#[trigger] table@.columns[i]).data_type.is_numeric()
                    && mentions_word(expr@, table@.columns[i].name)),
        decreases table.columns.len() - j,
    {
        assert(table@.columns[j as int] == table.columns@[j as int]@);
        if !table.columns[j].data_type.numeric() {
            let name = chars_of(table.columns[j].name.as_str());
            if mentions(&text, &name) {
                return true;
            }
        }
        j = j + 1;
    }
    false
}

/// Executable form of [`substituted`], for the columns of `map`. There is
/// a result exactly where every name can be searched for.
pub fn substitute(expr: &str, map: &ColumnMap) -> (r: Option<String>)
    ensures
        r is Some == searchable(names_of(map@)),
        r matches Some(s) ==> s@ == substituted(expr@, names_of(map@)),
{
    let ghost names = names_of(map@);
    let mut text: String = expr.to_owned();
    let mut k: usize = 0;
    assert(names.skip(0) =~= names);
    while k < map.columns.len()
        invariant
            k <= map.columns.len(),
            names == names_of(map@),
            forall|j: int| 0 <= j < k ==> regex_compiles(word_pattern(#[trigger] names[j])),
            substituted(expr@, names) == substituted(text@, names.skip(k as int)),
        decreases map.columns.len() - k,
    {
        let name = map.columns[k].0.as_str();
        assert(names.skip(k as int)[0] == name@);
        assert(names.skip(k as int).skip(1) =~= names.skip(k + 1));
        let mut pattern = chars_of("\\b");
        push_str(&mut pattern, name);
        push_str(&mut pattern, "\\b");
        let mut replacement = chars_of(name);
        push_str(&mut replacement, "[sys_index]");
        let pattern = string_of(&pattern);
        let replacement = string_of(&replacement);
        assert(pattern@ =~= word_pattern(names[k as int]));
        assert(replacement@ =~= indexed(names[k as int]));
        match replace_all(pattern.as_str(), text.as_str(), replacement.as_str()) {
            Some(next) => {
                text = next;
            },
            None => {
                return None;
            },
        }
        k = k + 1;
    }
    Some(text)
}

/// Whether the map has a column named `name`.
pub fn has_column(map: &ColumnMap, name: &str) -> (b: bool)
    ensures
        b == names_of(map@).contains(name@),
{
    let ghost names = names_of(map@);
    let mut k: usize = 0;
    while k < map.columns.len()
        invariant
            k <= map.columns.len(),
            names == names_of(map@),
            forall|i: int| 0 <= i < k ==> names[i] != name@,
        decreases map.columns.len() - k,
    {
        if same_str(map.columns[k].0.as_str(), name) {
            assert(names[k as int] == name@);
            return true;
        }
        k = k + 1;
    }
    false
}

/// Appends the kernel's statement for an assignment to `out`, given the
/// right-hand side after substitution.
pub fn push_statement(out: &mut Vec<char>, map: &ColumnMap, variable: &str, rhs: &str)
    ensures
        final(out)@ == old(out)@ + statement(names_of(map@), variable@, rhs@),
{
    if has_column(map, variable) {
        push_str(out, "        ");
        push_str(out, variable);
        push_str(out, "[sys_index] = ");
        push_str(out, rhs);
        push_str(out, ";\n");
        assert(out@ =~= old(out)@ + ("        "@ + variable@ + "[sys_index] = "@ + rhs@ + ";\n"@));
    } else {
        push_str(out, "        let ");
        push_str(out, variable);
        push_str(out, " = ");
        push_str(out, rhs);
        push_str(out, ";\n");
        assert(out@ =~= old(out)@ + ("        let "@ + variable@ + " = "@ + rhs@ + ";\n"@));
    }
}

/// Appends the declaration that binds the column `name` of type `t` at
/// index `k` to `out`.
pub fn push_binding(out: &mut Vec<char>, k: usize, name: &str, t: DataType)
    ensures
        final(out)@ == old(out)@ + binding(k as nat, name@, t),
{
    push_str(out, "@group(0)\n@binding(");
    push_decimal(out, k as u64);
    push_str(out, ")\nvar<storage, read_write> ");
    push_str(out, name);
    push_str(out, ": ");
    match t {
        DataType::Integer => push_str(out, "array<i32>"),
        DataType::Float => push_str(out, "array<f32>"),
        _ => push_str(out, "array<unknown>"),
    }
    push_str(out, ";\n\n");
    assert(out@ =~= old(out)@ + binding(k as nat, name@, t));
}

/// Generates the kernel for `assignments` over the columns of `map`,
/// which are columns of `table`.
///
/// Fails as [`kernel_check`] says. Where that check passes and there is
/// an assignment to rewrite, it fails with `InvalidPattern` exactly where
/// some column's name cannot be searched for. Everywhere else the kernel
/// is [`kernel_text`]: one binding for each column of the map, at the
/// indices from 0 on in the map's order, the entry point `main`, and one
/// statement for each assignment.
pub fn generate_kernel(table: &TableDefinition, map: &ColumnMap, assignments: &Vec<Assignment>) -> (r:
    Result<String, KernelError>)
    ensures
        match kernel_check(table@.columns, names_of(map@), assignments_view(assignments@)) {
            Some(e) => r == Err::<String, KernelError>(e),
            None => if assignments@.len() > 0 && !searchable(names_of(map@)) {
                r == Err::<String, KernelError>(KernelError::InvalidPattern)
            } else {
                r matches Ok(source) && source@ == kernel_text(
                    table@.columns,
                    names_of(map@),
                    assignments_view(assignments@),
                )
            },
        },
{
    let ghost columns = table@.columns;
    let ghost names = names_of(map@);
    let ghost list = assignments_view(assignments@);
    if map.columns.len() == 0 {
        return Err(KernelError::NoColumns);
    }
    let mut out: Vec<char> = Vec::new();
    let mut k: usize = 0;
    while k < map.columns.len()
        invariant
            k <= map.columns.len(),
            columns == table@.columns,
            names == names_of(map@),
            forall|i: int| 0 <= i < k ==> is_numeric_column(columns, #[trigger] names[i]),
            out@ == bindings(columns, names, k as int),
        decreases map.columns.len() - k,
    {
        let name = map.columns[k].0.as_str();
        assert(names[k as int] == name@);
        match table.column_type(name) {
            Some(t) => {
                if !t.numeric() {
                    return Err(KernelError::NotNumeric);
                }
                push_binding(&mut out, k, name, t);
            },
            None => {
                return Err(KernelError::NotNumeric);
            },
        }
        k = k + 1;
    }
    let mut a: usize = 0;
    while a < assignments.len()
        invariant
            a <= assignments.len(),
            columns == table@.columns,
            names == names_of(map@),
            names.len() > 0,
            forall|i: int| 0 <= i < names.len() ==> is_numeric_column(columns, #[trigger] names[i]),
            list == assignments_view(assignments@),
            forall|i: int|
                0 <= i < a ==> !references_non_numeric(columns, (#[trigger] list[i]).expression),
        decreases assignments.len() - a,
    {
        assert(list[a as int] == assignments@[a as int]@);
        if names_non_numeric(table, assignments[a].expression.as_str()) {
            return Err(KernelError::NonNumericReference);
        }
        a = a + 1;
    }
    assert(kernel_check(columns, names, list) is None);
    let ghost head = out@;
    push_str(
        &mut out,
        "@compute\n@workgroup_size(64, 1, 1)\nfn main(@builtin(global_invocation_id) gid: vec3<u32>,\n        @builtin(local_invocation_id) lid: vec3<u32>,\n        @builtin(workgroup_id) wid: vec3<u32>) {\n    let sys_index = wid.x * 64u + lid.x;\n    if (sys_index < arrayLength(&",
    );
    push_str(&mut out, map.columns[0].0.as_str());
    push_str(&mut out, ")) {\n");
    assert(names[0] == map.columns@[0].0@);
    assert(out@ =~= head + entry_point(names[0]));
    let ghost prologue = out@;
    let mut a: usize = 0;
    assert(prologue + statements(names, list, 0) =~= prologue);
    while a < assignments.len()
        invariant
            a <= assignments.len(),
            columns == table@.columns,
            names == names_of(map@),
            list == assignments_view(assignments@),
            kernel_check(columns, names, list) is None,
            a > 0 ==> searchable(names),
            out@ == prologue + statements(names, list, a as int),
        decreases assignments.len() - a,
    {
        assert(list[a as int] == assignments@[a as int]@);
        match substitute(assignments[a].expression.as_str(), map) {
            Some(rhs) => {
                push_statement(&mut out, map, assignments[a].variable.as_str(), rhs.as_str());
                assert(out@ =~= prologue + statements(names, list, a + 1));
            },
            None => {
                return Err(KernelError::InvalidPattern);
            },
        }
        a = a + 1;
    }
    push_str(&mut out, "    }\n}\n");
    let source = string_of(&out);
    assert(source@ =~= kernel_text(columns, names, list));
    Ok(source)
}

} // verus!
