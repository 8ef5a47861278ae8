//! The command dispatcher: which statement a line is, and whether it ends
//! the session. Carrying a statement out is left to the caller.

use crate::schema::table_from_sql;
use crate::statements::{insert_from_sql, select_from_sql, update_from_sql};
use crate::text::{
    ascii_upper, chars_of, has_prefix, same_text, starts_with, string_of, trim, trimmed,
};
use crate::types::{
    InsertDefinition, InsertSpec, SelectDefinition, SelectSpec, TableDefinition, TableSpec,
    UpdateDefinition, UpdateSpec,
};
use vstd::prelude::*;

verus! {

/// What a line asks for.
#[derive(Debug)]
pub enum Command {
    /// Create the table.
    CreateTable(TableDefinition),
    /// The line begins like `CREATE TABLE` and is none.
    InvalidCreate,
    /// Insert the row.
    Insert(InsertDefinition),
    /// The line begins like `INSERT INTO` and is none.
    InvalidInsert,
    /// Select the rows.
    Select(SelectDefinition),
    /// The line begins like `SELECT` and is none. Nothing is done or said
    /// for such a line.
    InvalidSelect,
    /// Update the table.
    Update(UpdateDefinition),
    /// The line begins like `UPDATE` and is none.
    InvalidUpdate,
    /// The line begins like no statement.
    Unsupported,
}

/// View of a [`Command`].
pub enum CommandSpec {
    CreateTable(TableSpec),
    InvalidCreate,
    Insert(InsertSpec),
    InvalidInsert,
    Select(SelectSpec),
    InvalidSelect,
    Update(UpdateSpec),
    InvalidUpdate,
    Unsupported,
}

impl View for Command {
    type V = CommandSpec;

    open spec fn view(&self) -> CommandSpec {
        match self {
            Command::CreateTable(t) => CommandSpec::CreateTable(t@),
            Command::InvalidCreate => CommandSpec::InvalidCreate,
            Command::Insert(d) => CommandSpec::Insert(d@),
            Command::InvalidInsert => CommandSpec::InvalidInsert,
            Command::Select(d) => CommandSpec::Select(d@),
            Command::InvalidSelect => CommandSpec::InvalidSelect,
            Command::Update(d) => CommandSpec::Update(d@),
            Command::InvalidUpdate => CommandSpec::InvalidUpdate,
            Command::Unsupported => CommandSpec::Unsupported,
        }
    }
}

/// The command of a line. The line is taken without the white space
/// around it; the words it begins with say which statement it is to be,
/// and the statement's own reading says whether it is one.
pub open spec fn command_of(line: Seq<char>) -> CommandSpec {
    let s = trim(line);
    if has_prefix(s, "CREATE TABLE"@) {
        match table_from_sql(s) {
            Some(t) => CommandSpec::CreateTable(t),
            None => CommandSpec::InvalidCreate,
        }
    } else if has_prefix(s, "INSERT INTO"@) {
        match insert_from_sql(s) {
            Some(d) => CommandSpec::Insert(d),
            None => CommandSpec::InvalidInsert,
        }
    } else if has_prefix(s, "SELECT"@) {
        match select_from_sql(s) {
            Some(d) => CommandSpec::Select(d),
            None => CommandSpec::InvalidSelect,
        }
    } else if has_prefix(s, "UPDATE"@) {
        match update_from_sql(s) {
            Some(d) => CommandSpec::Update(d),
            None => CommandSpec::InvalidUpdate,
        }
    } else {
        CommandSpec::Unsupported
    }
}

/// Whether a line ends the session: without the white space around it, it
/// is the word `EXIT`, in whatever case its letters are.
pub open spec fn is_exit(line: Seq<char>) -> bool {
    ascii_upper(trim(line)) == "EXIT"@
}

/// Reads the lines of a session.
#[derive(Debug)]
pub struct QueryRunner;

impl QueryRunner {
    /// The command of `command`, as [`command_of`] says.
    pub fn parse_command(command: &str) -> (r: Command)
        ensures
            r@ == command_of(command@),
    {
        let raw = chars_of(command);
        let s = trimmed(&raw);
        let line = string_of(&s);
        let create = chars_of("CREATE TABLE");
        let insert = chars_of("INSERT INTO");
        let select = chars_of("SELECT");
        let update = chars_of("UPDATE");
        if starts_with(&s, &create) {
            match TableDefinition::from_sql(line.as_str()) {
                Some(t) => Command::CreateTable(t),
                None => Command::InvalidCreate,
            }
        } else if starts_with(&s, &insert) {
            match InsertDefinition::from_sql(line.as_str()) {
                Some(d) => Command::Insert(d),
                None => Command::InvalidInsert,
            }
        } else if starts_with(&s, &select) {
            match SelectDefinition::from_sql(line.as_str()) {
                Some(d) => Command::Select(d),
                None => Command::InvalidSelect,
            }
        } else if starts_with(&s, &update) {
            match UpdateDefinition::from_sql(line.as_str()) {
                Some(d) => Command::Update(d),
                None => Command::InvalidUpdate,
            }
        } else {
            Command::Unsupported
        }
    }

    /// Whether `line` ends the session, as [`is_exit`] says.
    pub fn wants_exit(line: &str) -> (b: bool)
        ensures
            b == is_exit(line@),
    {
        let raw = chars_of(line);
        let s = trimmed(&raw);
        let mut up: Vec<char> = Vec::new();
        let mut i: usize = 0;
        while i < s.len()
            invariant
                i <= s.len(),
                up@ == ascii_upper(s@).take(i as int),
            decreases s.len() - i,
        {
            let c = s[i];
            let u: u32 = c as u32;
            let capital: char = if 0x61 <= u && u <= 0x7A {
                ((u - 0x20) as u8) as char
            } else {
                c
            };
            up.push(capital);
            assert(up@ =~= ascii_upper(s@).take(i + 1));
            i = i + 1;
        }
        assert(ascii_upper(s@).take(s.len() as int) =~= ascii_upper(s@));
        let word = chars_of("EXIT");
        same_text(&up, &word)
    }
}

} // verus!
