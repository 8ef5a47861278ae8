use rql::columns::{is_rectangular, project_numeric, reconstruct_rows, update_rows};
use rql::rowlog::{frame_payload, scan_rows};
use rql::statements::UpdateError;
use rql::types::{
    ColumnDefinition, ColumnMap, DataType, ErrorKind, InsertDefinition, Row, SelectDefinition,
    TableDefinition, UpdateDefinition, Value,
};

fn users() -> TableDefinition {
    TableDefinition::from_sql(
        "CREATE TABLE users ( id INTEGER NOT NULL UNIQUE, name TEXT NOT NULL, is_active BOOLEAN );",
    )
    .unwrap()
}

fn float_bits(values: &[String]) -> Vec<Option<u32>> {
    values.iter().map(|v| v.parse::<f32>().ok().map(f32::to_bits)).collect()
}

fn float_texts(row: &Row) -> Vec<String> {
    row.fields
        .iter()
        .map(|f| match f.1 {
            Value::Float(bits) => f32::from_bits(bits).to_string(),
            _ => String::new(),
        })
        .collect()
}

fn insert(log: &mut Vec<u8>, table: &TableDefinition, sql: &str) -> Result<(), ErrorKind> {
    let mut def = InsertDefinition::from_sql(sql).unwrap();
    let bits = float_bits(&def.values);
    let schema = table.clone();
    let frame = def.validate_and_insert(schema, &bits)?;
    log.extend(frame);
    Ok(())
}

fn select(log: &Vec<u8>, table: &TableDefinition, sql: &str) -> Vec<Row> {
    let def = SelectDefinition::from_sql(sql).unwrap();
    let rows = scan_rows(log, table).unwrap();
    let texts: Vec<Vec<String>> = rows.iter().map(float_texts).collect();
    def.execute(rows, &texts)
}

fn shown(rows: &[Row]) -> Vec<String> {
    rows.iter().map(|r| format!("{:?}", r.fields)).collect()
}

#[test]
fn selecting_from_a_new_table_gives_nothing() {
    let log = Vec::new();
    assert!(select(&log, &users(), "SELECT * FROM users;").is_empty());
}

#[test]
fn inserted_rows_are_selected_by_equality() {
    let table = users();
    let mut log = Vec::new();
    insert(&mut log, &table, "INSERT INTO users VALUES ( 1, 'alice', true );").unwrap();
    insert(&mut log, &table, "INSERT INTO users VALUES ( 2, 'bob', false );").unwrap();
    let rows = select(&log, &table, "SELECT * FROM users WHERE id=1;");
    assert_eq!(
        shown(&rows),
        vec![
            "[(\"id\", Integer(1)), (\"name\", Text(\"alice\")), (\"is_active\", Boolean(true))]"
                .to_string()
        ]
    );
    assert_eq!(select(&log, &table, "SELECT * FROM users").len(), 2);
    assert_eq!(select(&log, &table, "SELECT * FROM users WHERE name = 'bob'").len(), 1);
    assert_eq!(
        select(&log, &table, "SELECT * FROM users WHERE name = 'bob' AND is_active = true").len(),
        0
    );
    assert_eq!(
        select(&log, &table, "SELECT * FROM users WHERE name = 'bob' OR is_active = false").len(),
        1
    );
    assert_eq!(select(&log, &table, "SELECT * FROM users WHERE age = 3").len(), 0);
}

#[test]
fn too_few_values_are_invalid_input_and_nothing_is_stored() {
    let table = users();
    let mut log = Vec::new();
    assert_eq!(
        insert(&mut log, &table, "INSERT INTO users VALUES ( 1, 'alice' );"),
        Err(ErrorKind::InvalidInput)
    );
    assert!(log.is_empty());
    assert!(select(&log, &table, "SELECT * FROM users;").is_empty());
}

#[test]
fn a_value_of_the_wrong_type_is_invalid_input() {
    let table = users();
    let mut log = Vec::new();
    assert_eq!(
        insert(&mut log, &table, "INSERT INTO users VALUES ( one, 'alice', true );"),
        Err(ErrorKind::InvalidInput)
    );
    assert_eq!(
        insert(&mut log, &table, "INSERT INTO users VALUES ( 1, 'alice', maybe );"),
        Err(ErrorKind::InvalidInput)
    );
}

#[test]
fn validating_keeps_the_schema_and_frames_the_row() {
    let mut def = InsertDefinition::from_sql("INSERT INTO users VALUES (7, 'x', false)").unwrap();
    assert_eq!(def.name, "users");
    assert_eq!(def.values, vec!["7", "'x'", "false"]);
    assert!(def.table_definition.columns.is_empty());
    let frame = def.validate_and_insert(users(), &Vec::new()).unwrap();
    assert_eq!(
        frame,
        frame_payload(&vec![7, 0, 0, 0, 1, 0, 0, 0, 0, 0, 0, 0, b'x', 0])
    );
    assert_eq!(def.table_definition.name, "users");
    assert_eq!(def.table_definition.columns.len(), 3);
    assert_eq!(def.values, vec!["7", "'x'", "false"]);
}

#[test]
fn a_float_column_takes_the_bits_it_is_given() {
    let table = TableDefinition::from_sql("CREATE TABLE m ( a FLOAT NOT NULL );").unwrap();
    let mut def = InsertDefinition::from_sql("INSERT INTO m VALUES ( 1.5 )").unwrap();
    let frame = def.validate_and_insert(table.clone(), &vec![Some(1.5f32.to_bits())]).unwrap();
    assert_eq!(frame, frame_payload(&1.5f32.to_le_bytes().to_vec()));
    let mut def = InsertDefinition::from_sql("INSERT INTO m VALUES ( abc )").unwrap();
    assert_eq!(def.validate_and_insert(table.clone(), &vec![None]), Err(ErrorKind::InvalidInput));
    let mut def = InsertDefinition::from_sql("INSERT INTO m VALUES ( 1.5 )").unwrap();
    assert_eq!(def.validate_and_insert(table, &Vec::new()), Err(ErrorKind::InvalidInput));
}

#[test]
fn insert_statements_are_read() {
    let def = InsertDefinition::from_sql("  INSERT INTO  t  VALUES ( a ,, 'b c' ) ; ").unwrap();
    assert_eq!(def.name, "t");
    assert_eq!(def.values, vec!["a", "", "'b c'"]);
    let def = InsertDefinition::from_sql("INSERT INTO t VALUES ()").unwrap();
    assert_eq!(def.values, vec![""]);
    assert!(InsertDefinition::from_sql("INSERT INTO t (1, 2)").is_none());
    assert!(InsertDefinition::from_sql("INSERT INTO t VALUES 1, 2").is_none());
    assert!(InsertDefinition::from_sql("INSERT VALUES (1)").is_none());
    assert!(InsertDefinition::from_sql("INSERT INTO t VALUES )1(").is_none());
    assert!(InsertDefinition::from_sql("SELECT * FROM t").is_none());
}

#[test]
fn select_statements_are_read() {
    let def = SelectDefinition::from_sql("SELECT * FROM users WHERE id = 1 AND name = 'al';;").unwrap();
    assert_eq!(def.table_name, "users");
    assert_eq!(
        def.criteria,
        vec![
            ("id".to_string(), "=".to_string(), "1".to_string()),
            ("name".to_string(), "=".to_string(), "al".to_string()),
        ]
    );
    let def = SelectDefinition::from_sql("SELECT * FROM users").unwrap();
    assert_eq!(def.table_name, "users");
    assert!(def.criteria.is_empty());
    assert!(SelectDefinition::from_sql("SELECT * FROM").is_none());
    assert!(SelectDefinition::from_sql("SELECT * FROM t WHERE").is_none());
    assert!(SelectDefinition::from_sql("SELECT * FROM t WHERE a > 1").is_none());
    assert!(SelectDefinition::from_sql("SELECT * FROM t WHERE a = 1 = 2").is_none());
    assert!(SelectDefinition::from_sql("SELECT * WHERE a = 1 FROM t").is_none());
    assert!(SelectDefinition::from_sql("PICK * FROM t").is_none());
}

#[test]
fn conditions_are_split_on_and_and_or() {
    let c = SelectDefinition::parse_criteria("a = 1 OR b = 'x y' AND c=").unwrap();
    assert_eq!(
        c,
        vec![
            ("a".to_string(), "=".to_string(), "1".to_string()),
            ("b".to_string(), "=".to_string(), "x y".to_string()),
            ("c".to_string(), "=".to_string(), "".to_string()),
        ]
    );
    assert_eq!(SelectDefinition::parse_criteria("").unwrap().len(), 0);
    assert!(SelectDefinition::parse_criteria("a").is_none());
    assert!(SelectDefinition::parse_criteria("a = 1 AND").is_none());
}

#[test]
fn a_condition_with_another_operator_never_holds() {
    let def = SelectDefinition {
        table_name: "t".to_string(),
        criteria: vec![("id".to_string(), "<".to_string(), "1".to_string())],
    };
    let row = Row { fields: vec![("id".to_string(), Value::Integer(1))] };
    assert!(!def.matches_criteria(&row, &Vec::new()));
}

#[test]
fn a_float_is_compared_by_the_text_it_is_given() {
    let def = SelectDefinition::from_sql("SELECT * FROM m WHERE a = 2.5").unwrap();
    let row = Row { fields: vec![("a".to_string(), Value::Float(2.5f32.to_bits()))] };
    assert!(def.matches_criteria(&row, &vec!["2.5".to_string()]));
    assert!(!def.matches_criteria(&row, &vec!["2.50".to_string()]));
    assert!(!def.matches_criteria(&row, &Vec::new()));
}

#[test]
fn the_last_field_of_a_name_is_the_one_compared() {
    let def = SelectDefinition::from_sql("SELECT * FROM t WHERE a = 2").unwrap();
    let row = Row {
        fields: vec![("a".to_string(), Value::Integer(1)), ("a".to_string(), Value::Integer(2))],
    };
    assert!(def.matches_criteria(&row, &Vec::new()));
    match row.get("a") {
        Some(Value::Integer(2)) => {}
        other => panic!("{:?}", other),
    }
    assert_eq!(row.position("a"), Some(1));
    assert!(row.get("b").is_none());
}

#[test]
fn update_statements_are_read() {
    let def = UpdateDefinition::from_sql("UPDATE m SET a = a * 2, b = b + a;").unwrap();
    assert_eq!(def.table_name, "m");
    assert_eq!(def.set_query, "a = a * 2, b = b + a");
    assert!(UpdateDefinition::from_sql("UPDATE m").is_none());
    assert!(UpdateDefinition::from_sql("UPDATESET a = 1").is_none());
    assert!(UpdateDefinition::from_sql("DELETE m SET a = 1").is_none());
}

#[test]
fn a_keyword_inside_a_name_is_no_keyword() {
    let def = UpdateDefinition::from_sql("UPDATE ASSETS SET a = a + 1;").unwrap();
    assert_eq!(def.table_name, "ASSETS");
    assert_eq!(def.set_query, "a = a + 1");
    let def = UpdateDefinition::from_sql("UPDATE t SET OFFSET = OFFSET + 1").unwrap();
    assert_eq!(def.table_name, "t");
    assert_eq!(def.set_query, "OFFSET = OFFSET + 1");
    let def = SelectDefinition::from_sql("SELECT * FROM NOWHERE WHERE FROMAGE = 'ORANGE' AND BRAND = 'x'").unwrap();
    assert_eq!(def.table_name, "NOWHERE");
    assert_eq!(
        def.criteria,
        vec![
            ("FROMAGE".to_string(), "=".to_string(), "ORANGE".to_string()),
            ("BRAND".to_string(), "=".to_string(), "x".to_string()),
        ]
    );
    let def = InsertDefinition::from_sql("INSERT INTO MYVALUES VALUES(1, 'VALUES2')").unwrap();
    assert_eq!(def.name, "MYVALUES");
    assert_eq!(def.values, vec!["1", "'VALUES2'"]);
    let def = SelectDefinition::from_sql("SELECT * FROM t WHERE a = 'FISH AND CHIPS' OR b = 'x WHERE y'").unwrap();
    assert_eq!(
        def.criteria,
        vec![
            ("a".to_string(), "=".to_string(), "FISH AND CHIPS".to_string()),
            ("b".to_string(), "=".to_string(), "x WHERE y".to_string()),
        ]
    );
    assert!(UpdateDefinition::from_sql("UPDATE ASSETS a = 1").is_none());
    assert!(SelectDefinition::from_sql("SELECT * FROMAGE").is_none());
}

fn measurements() -> (TableDefinition, Vec<Row>) {
    let table = TableDefinition::from_sql("CREATE TABLE m ( a FLOAT NOT NULL, b FLOAT NOT NULL );").unwrap();
    let rows = [(1.0f32, 10.0f32), (2.0, 20.0), (3.0, 30.0)]
        .iter()
        .map(|(a, b)| Row {
            fields: vec![
                ("a".to_string(), Value::Float(a.to_bits())),
                ("b".to_string(), Value::Float(b.to_bits())),
            ],
        })
        .collect();
    (table, rows)
}

#[test]
fn loading_keeps_the_numeric_columns_in_schema_order() {
    let table = TableDefinition {
        name: "t".to_string(),
        columns: vec![
            ColumnDefinition { name: "n".to_string(), data_type: DataType::Text, nullable: true, unique: false },
            ColumnDefinition { name: "x".to_string(), data_type: DataType::Integer, nullable: true, unique: false },
            ColumnDefinition { name: "ok".to_string(), data_type: DataType::Boolean, nullable: true, unique: false },
            ColumnDefinition { name: "y".to_string(), data_type: DataType::Float, nullable: true, unique: false },
        ],
    };
    let rows = vec![
        Row {
            fields: vec![
                ("n".to_string(), Value::Text("p".to_string())),
                ("x".to_string(), Value::Integer(1)),
                ("ok".to_string(), Value::Boolean(true)),
                ("y".to_string(), Value::Float(5)),
            ],
        },
        Row {
            fields: vec![
                ("n".to_string(), Value::Text("q".to_string())),
                ("x".to_string(), Value::Integer(2)),
                ("ok".to_string(), Value::Boolean(false)),
                ("y".to_string(), Value::Float(6)),
            ],
        },
    ];
    let def = UpdateDefinition { table_name: "t".to_string(), set_query: "x = x + 1".to_string() };
    let map = def.load_data(&table, &rows);
    assert_eq!(
        format!("{:?}", map.columns),
        "[(\"x\", [Integer(1), Integer(2)]), (\"y\", [Float(5), Float(6)])]"
    );
    assert!(project_numeric(&table, &Vec::new()).columns.is_empty());
}

#[test]
fn an_update_is_compiled_to_a_kernel() {
    let (table, rows) = measurements();
    let def = UpdateDefinition::from_sql("UPDATE m SET a = a * 2, b = b + a;").unwrap();
    let data = def.load_data(&table, &rows);
    let source = def.execute(&table, &data).unwrap();
    assert!(source.contains("        a[sys_index] = a[sys_index] * 2;\n"));
    assert!(source.contains("        b[sys_index] = b[sys_index] + a[sys_index];\n"));
}

#[test]
fn an_update_that_does_not_parse_fails_with_the_message() {
    let (table, rows) = measurements();
    let def = UpdateDefinition { table_name: "m".to_string(), set_query: "a = ".to_string() };
    let data = def.load_data(&table, &rows);
    match def.execute(&table, &data) {
        Err(UpdateError::Parse(m)) => assert_eq!(m, "Parse error: unexpected input at position 3"),
        other => panic!("{:?}", other),
    }
}

#[test]
fn columns_become_rows_again() {
    let map = ColumnMap {
        columns: vec![
            ("a".to_string(), vec![Value::Float(1), Value::Float(2)]),
            ("b".to_string(), vec![Value::Integer(3), Value::Integer(4)]),
        ],
    };
    assert!(is_rectangular(&map));
    let rows = reconstruct_rows(&map);
    assert_eq!(
        shown(&rows),
        vec![
            "[(\"a\", Float(1)), (\"b\", Integer(3))]".to_string(),
            "[(\"a\", Float(2)), (\"b\", Integer(4))]".to_string(),
        ]
    );
    assert!(reconstruct_rows(&ColumnMap { columns: Vec::new() }).is_empty());
    let ragged = ColumnMap {
        columns: vec![
            ("a".to_string(), vec![Value::Float(1), Value::Float(2)]),
            ("b".to_string(), vec![Value::Integer(3)]),
        ],
    };
    assert!(!is_rectangular(&ragged));
}

#[test]
fn updates_are_put_into_the_rows_at_their_index() {
    let existing = vec![
        Row {
            fields: vec![
                ("n".to_string(), Value::Text("p".to_string())),
                ("x".to_string(), Value::Integer(1)),
            ],
        },
        Row {
            fields: vec![
                ("n".to_string(), Value::Text("q".to_string())),
                ("x".to_string(), Value::Integer(2)),
            ],
        },
    ];
    let updates = vec![Row {
        fields: vec![("x".to_string(), Value::Integer(10)), ("z".to_string(), Value::Boolean(true))],
    }];
    let rows = update_rows(&existing, &updates);
    assert_eq!(
        shown(&rows),
        vec![
            "[(\"n\", Text(\"p\")), (\"x\", Integer(10)), (\"z\", Boolean(true))]".to_string(),
            "[(\"n\", Text(\"q\")), (\"x\", Integer(2))]".to_string(),
        ]
    );
}

#[test]
fn an_update_that_names_a_text_column_is_rejected() {
    let table = users();
    let rows = vec![Row {
        fields: vec![
            ("id".to_string(), Value::Integer(1)),
            ("name".to_string(), Value::Text("alice".to_string())),
            ("is_active".to_string(), Value::Boolean(true)),
        ],
    }];
    let def = UpdateDefinition::from_sql("UPDATE users SET id = id + name").unwrap();
    let data = def.load_data(&table, &rows);
    match def.execute(&table, &data) {
        Err(UpdateError::Kernel(rql::kernel::KernelError::NonNumericReference)) => {}
        other => panic!("{:?}", other),
    }
    let empty = def.load_data(&table, &Vec::new());
    match def.execute(&table, &empty) {
        Err(UpdateError::Kernel(rql::kernel::KernelError::NoColumns)) => {}
        other => panic!("{:?}", other),
    }
}
