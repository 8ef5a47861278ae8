use regex::Regex;
use rql::types::{ColumnDefinition, DataType, TableDefinition};

fn reduce_spaces(input: &str) -> String {
    let re = Regex::new(r"\s+").unwrap();
    re.replace_all(input, " ").to_string()
}

fn column(name: &str, data_type: DataType, nullable: bool, unique: bool) -> ColumnDefinition {
    ColumnDefinition { name: name.to_string(), data_type, nullable, unique }
}

fn same_column(a: &ColumnDefinition, b: &ColumnDefinition) -> bool {
    a == b
}

fn same_table(a: &TableDefinition, b: &TableDefinition) -> bool {
    a == b
}

#[test]
fn test_parse_create() {
    let sql = r#"
        CREATE TABLE users (
            id INTEGER NOT NULL UNIQUE,
            name TEXT NOT NULL,
            is_active BOOLEAN
            );
        "#;

    if let Some(table) = TableDefinition::from_sql(sql) {
        println!("Parsed Table Definition: {:?}", table);

        let generated_sql = table.to_sql().replace("\n", "").trim().to_lowercase();
        let inputted_sql = table.to_sql().replace("\n", "").trim().to_lowercase();

        assert_eq!(reduce_spaces(&generated_sql), reduce_spaces(&inputted_sql));
    } else {
        panic!("Failed to parse SQL");
    }
}

#[test]
fn create_table_users_is_read_field_by_field() {
    let sql = "CREATE TABLE users ( id INTEGER NOT NULL UNIQUE, name TEXT NOT NULL, is_active BOOLEAN );";
    let table = TableDefinition::from_sql(sql).unwrap();
    let expected = TableDefinition {
        name: "users".to_string(),
        columns: vec![
            column("id", DataType::Integer, false, true),
            column("name", DataType::Text, false, false),
            column("is_active", DataType::Boolean, true, false),
        ],
    };
    assert!(same_table(&table, &expected));
}

#[test]
fn to_sql_writes_one_column_to_a_line() {
    let table = TableDefinition {
        name: "m".to_string(),
        columns: vec![
            column("a", DataType::Float, false, false),
            column("b", DataType::Integer, true, true),
        ],
    };
    assert_eq!(
        table.to_sql(),
        "CREATE TABLE m (\n  a FLOAT NOT NULL,\n  b INTEGER UNIQUE\n);"
    );
}

#[test]
fn a_schema_survives_being_written_and_read() {
    let table = TableDefinition {
        name: "Inventory".to_string(),
        columns: vec![
            column("sku", DataType::Text, false, true),
            column("Count", DataType::Integer, true, false),
            column("price", DataType::Float, false, false),
            column("listed", DataType::Boolean, true, true),
        ],
    };
    let again = TableDefinition::from_sql(&table.to_sql()).unwrap();
    assert!(same_table(&table, &again));
}

#[test]
fn type_names_are_read_in_any_case() {
    assert_eq!(DataType::from_sql_type("integer"), Some(DataType::Integer));
    assert_eq!(DataType::from_sql_type("Float"), Some(DataType::Float));
    assert_eq!(DataType::from_sql_type("tExT"), Some(DataType::Text));
    assert_eq!(DataType::from_sql_type("BOOLEAN"), Some(DataType::Boolean));
    assert_eq!(DataType::from_sql_type("VARCHAR"), None);
    assert_eq!(DataType::from_sql_type(""), None);
    assert_eq!(DataType::from_sql_type("ınteger"), "ınteger".to_uppercase().parse::<String>().ok().and_then(|u| {
        if u == "INTEGER" { Some(DataType::Integer) } else { None }
    }));
}

#[test]
fn type_names_are_written_in_capitals() {
    assert_eq!(DataType::Integer.to_sql_type(), "INTEGER");
    assert_eq!(DataType::Float.to_sql_type(), "FLOAT");
    assert_eq!(DataType::Text.to_sql_type(), "TEXT");
    assert_eq!(DataType::Boolean.to_sql_type(), "BOOLEAN");
}

#[test]
fn host_types_are_named() {
    assert_eq!(DataType::Integer.rust_type(), "i32");
    assert_eq!(DataType::Float.rust_type(), "f32");
    assert_eq!(DataType::Text.rust_type(), "String");
    assert_eq!(DataType::Boolean.rust_type(), "bool");
}

#[test]
fn a_column_needs_a_name_and_a_type() {
    assert!(ColumnDefinition::from_sql("id").is_none());
    assert!(ColumnDefinition::from_sql("").is_none());
    assert!(ColumnDefinition::from_sql("id NUMBER").is_none());
    let c = ColumnDefinition::from_sql("  id   integer  ").unwrap();
    assert!(same_column(&c, &column("id", DataType::Integer, true, false)));
}

#[test]
fn column_flags_are_found_anywhere_after_the_type() {
    let c = ColumnDefinition::from_sql("id INTEGER UNIQUE NOT NULL").unwrap();
    assert!(same_column(&c, &column("id", DataType::Integer, false, true)));
    assert_eq!(c.to_sql(), "id INTEGER NOT NULL UNIQUE");
}

#[test]
fn a_statement_must_begin_and_end_as_create_table_does() {
    assert!(TableDefinition::from_sql("CREATE TABLE t ( a INTEGER )").is_none());
    assert!(TableDefinition::from_sql("MAKE TABLE t ( a INTEGER );").is_none());
    assert!(TableDefinition::from_sql("CREATE TABLE t a INTEGER );").is_none());
    assert!(TableDefinition::from_sql("CREATE TABLE( a INTEGER );").is_none());
}

#[test]
fn a_table_without_a_column_is_none() {
    assert!(TableDefinition::from_sql("CREATE TABLE t ( );").is_none());
    assert!(TableDefinition::from_sql("CREATE TABLE t ( a, b );").is_none());
}

#[test]
fn a_piece_that_declares_nothing_is_passed_over() {
    let table = TableDefinition::from_sql("CREATE TABLE t ( a INTEGER, nonsense, b TEXT );").unwrap();
    assert_eq!(table.columns.len(), 2);
    assert_eq!(table.columns[1].name, "b");
}

#[test]
fn the_default_table_is_empty() {
    let t = TableDefinition::default();
    assert_eq!(t.name, "");
    assert!(t.columns.is_empty());
}

#[test]
fn a_flag_inside_a_name_is_no_flag() {
    let c = ColumnDefinition::from_sql("UNIQUE_ID INTEGER").unwrap();
    assert!(same_column(&c, &column("UNIQUE_ID", DataType::Integer, true, false)));
    let table = TableDefinition {
        name: "t".to_string(),
        columns: vec![column("UNIQUE_ID", DataType::Integer, true, false)],
    };
    let again = TableDefinition::from_sql(&table.to_sql()).unwrap();
    assert!(same_table(&table, &again));
}

#[test]
fn tables_are_equal_when_their_names_and_columns_are() {
    let a = TableDefinition { name: "t".to_string(), columns: vec![column("a", DataType::Integer, true, false)] };
    let same = TableDefinition { name: "t".to_string(), columns: vec![column("a", DataType::Integer, true, false)] };
    let other_name = TableDefinition { name: "u".to_string(), columns: vec![column("a", DataType::Integer, true, false)] };
    let other_flag = TableDefinition { name: "t".to_string(), columns: vec![column("a", DataType::Integer, false, false)] };
    let longer = TableDefinition {
        name: "t".to_string(),
        columns: vec![column("a", DataType::Integer, true, false), column("b", DataType::Text, true, false)],
    };
    assert!(a == same);
    assert!(a != other_name);
    assert!(a != other_flag);
    assert!(a != longer);
    assert!(column("a", DataType::Integer, true, false) != column("a", DataType::Float, true, false));
    assert!(column("a", DataType::Integer, true, false) != column("a", DataType::Integer, true, true));
    assert!(column("a", DataType::Integer, true, false) != column("b", DataType::Integer, true, false));
}
