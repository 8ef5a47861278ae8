use rql::executor::ShaderExecutor;
use rql::rewrite::{can_rewrite, rewrite, updated_rows};
use rql::rowlog::{encode_rows, scan_rows};
use rql::runner::{Command, QueryRunner};
use rql::types::{InsertDefinition, Row, TableDefinition, Value};

#[test]
fn lines_are_told_apart_by_how_they_begin() {
    match QueryRunner::parse_command("  CREATE TABLE t ( a INTEGER );\n") {
        Command::CreateTable(t) => assert_eq!(t.name, "t"),
        other => panic!("{:?}", other),
    }
    match QueryRunner::parse_command("CREATE TABLE t") {
        Command::InvalidCreate => {}
        other => panic!("{:?}", other),
    }
    match QueryRunner::parse_command("INSERT INTO t VALUES (1);") {
        Command::Insert(d) => assert_eq!(d.values, vec!["1"]),
        other => panic!("{:?}", other),
    }
    match QueryRunner::parse_command("INSERT INTO t 1") {
        Command::InvalidInsert => {}
        other => panic!("{:?}", other),
    }
    match QueryRunner::parse_command("INSERT t VALUES (1)") {
        Command::Unsupported => {}
        other => panic!("{:?}", other),
    }
    match QueryRunner::parse_command("SELECT * FROM t WHERE a = 1;") {
        Command::Select(d) => assert_eq!(d.table_name, "t"),
        other => panic!("{:?}", other),
    }
    match QueryRunner::parse_command("SELECT 1") {
        Command::InvalidSelect => {}
        other => panic!("{:?}", other),
    }
    match QueryRunner::parse_command("UPDATE t SET a = 1;") {
        Command::Update(d) => assert_eq!(d.set_query, "a = 1"),
        other => panic!("{:?}", other),
    }
    match QueryRunner::parse_command("UPDATE t") {
        Command::InvalidUpdate => {}
        other => panic!("{:?}", other),
    }
    match QueryRunner::parse_command("DROP TABLE t") {
        Command::Unsupported => {}
        other => panic!("{:?}", other),
    }
    match QueryRunner::parse_command("select * from t") {
        Command::Unsupported => {}
        other => panic!("{:?}", other),
    }
}

#[test]
fn exit_ends_the_session_in_any_case() {
    assert!(QueryRunner::wants_exit("EXIT"));
    assert!(QueryRunner::wants_exit("  exit\n"));
    assert!(QueryRunner::wants_exit("eXiT"));
    assert!(!QueryRunner::wants_exit("EXIT;"));
    assert!(!QueryRunner::wants_exit("quit"));
    assert!(!QueryRunner::wants_exit(""));
}

#[test]
fn an_update_rewrites_the_log_with_what_the_device_gave() {
    let table = match QueryRunner::parse_command("CREATE TABLE m ( a FLOAT NOT NULL, b FLOAT NOT NULL );") {
        Command::CreateTable(t) => t,
        other => panic!("{:?}", other),
    };
    let mut log: Vec<u8> = Vec::new();
    for (a, b) in [("1.0", "10.0"), ("2.0", "20.0"), ("3.0", "30.0")] {
        let mut def = InsertDefinition::from_sql(&format!("INSERT INTO m VALUES ( {}, {} );", a, b)).unwrap();
        let bits: Vec<Option<u32>> =
            def.values.iter().map(|v| v.parse::<f32>().ok().map(f32::to_bits)).collect();
        log.extend(def.validate_and_insert(table.clone(), &bits).unwrap());
    }
    let update = match QueryRunner::parse_command("UPDATE m SET a = a * 2, b = b + a;") {
        Command::Update(d) => d,
        other => panic!("{:?}", other),
    };
    let rows = scan_rows(&log, &table).unwrap();
    let data = update.load_data(&table, &rows);
    assert!(update.execute(&table, &data).is_ok());
    let executor = ShaderExecutor;
    assert!(executor.ready(&data, &table));
    let plan = executor.plan(&data, &table);
    assert_eq!(plan.workgroups, 1);
    let outputs: Vec<Vec<u32>> = vec![
        [2.0f32, 4.0, 6.0].iter().map(|x| x.to_bits()).collect(),
        [12.0f32, 24.0, 36.0].iter().map(|x| x.to_bits()).collect(),
    ];
    assert!(can_rewrite(&table, &plan.keys, &outputs));
    let new_log = rewrite(&table, &rows, &plan.keys, &outputs);
    let back: Vec<Row> = scan_rows(&new_log, &table).unwrap();
    let a: Vec<f32> = back
        .iter()
        .map(|r| match r.get("a") {
            Some(Value::Float(bits)) => f32::from_bits(*bits),
            other => panic!("{:?}", other),
        })
        .collect();
    assert_eq!(a, vec![2.0, 4.0, 6.0]);
}

#[test]
fn a_table_definition_can_be_copied() {
    let t = TableDefinition::from_sql("CREATE TABLE t ( a INTEGER NOT NULL, b TEXT UNIQUE );").unwrap();
    let c = t.clone();
    assert_eq!(c.to_sql(), t.to_sql());
}

#[test]
fn a_table_is_kept_under_its_name_in_lower_case() {
    assert_eq!(rql::catalog::schema_path("Users"), "schema/users_def.bin");
    assert_eq!(rql::catalog::data_path("Users"), "data/users_data.bin");
    assert_eq!(rql::catalog::data_path("ÄB"), "data/äb_data.bin");
}

#[test]
fn an_update_keeps_the_fields_that_the_device_did_not_see() {
    let table = TableDefinition::from_sql(
        "CREATE TABLE stock ( name TEXT NOT NULL, count INTEGER NOT NULL, price FLOAT, listed BOOLEAN );",
    )
    .unwrap();
    let rows = vec![
        Row {
            fields: vec![
                ("name".to_string(), Value::Text("nut".to_string())),
                ("count".to_string(), Value::Integer(3)),
                ("price".to_string(), Value::Float(1.5f32.to_bits())),
                ("listed".to_string(), Value::Boolean(true)),
            ],
        },
        Row {
            fields: vec![
                ("name".to_string(), Value::Text("bolt".to_string())),
                ("count".to_string(), Value::Integer(-4)),
                ("price".to_string(), Value::Float(2.5f32.to_bits())),
                ("listed".to_string(), Value::Boolean(false)),
            ],
        },
    ];
    let update = match QueryRunner::parse_command("UPDATE stock SET count = count + 1;") {
        Command::Update(d) => d,
        other => panic!("{:?}", other),
    };
    let data = update.load_data(&table, &rows);
    let executor = ShaderExecutor;
    assert!(executor.ready(&data, &table));
    let plan = executor.plan(&data, &table);
    assert_eq!(plan.keys, vec!["count", "price"]);
    let outputs: Vec<Vec<u32>> = vec![
        plan.words[0].iter().map(|w| w.wrapping_add(1)).collect(),
        plan.words[1].clone(),
    ];
    let expected = vec![
        Row {
            fields: vec![
                ("name".to_string(), Value::Text("nut".to_string())),
                ("count".to_string(), Value::Integer(4)),
                ("price".to_string(), Value::Float(1.5f32.to_bits())),
                ("listed".to_string(), Value::Boolean(true)),
            ],
        },
        Row {
            fields: vec![
                ("name".to_string(), Value::Text("bolt".to_string())),
                ("count".to_string(), Value::Integer(-3)),
                ("price".to_string(), Value::Float(2.5f32.to_bits())),
                ("listed".to_string(), Value::Boolean(false)),
            ],
        },
    ];
    assert!(can_rewrite(&table, &plan.keys, &outputs));
    assert_eq!(updated_rows(&table, &rows, &plan.keys, &outputs), expected);
    let log = rewrite(&table, &rows, &plan.keys, &outputs);
    assert_eq!(log, encode_rows(&expected));
    assert_eq!(scan_rows(&log, &table).unwrap(), expected);
    let ragged = vec![vec![1, 2], vec![3]];
    assert!(!can_rewrite(&table, &plan.keys, &ragged));
}
