use rql::executor::ShaderExecutor;
use rql::types::{ColumnDefinition, ColumnMap, DataType, TableDefinition, Value};

fn table() -> TableDefinition {
    TableDefinition {
        name: "m".to_string(),
        columns: vec![
            ColumnDefinition { name: "a".to_string(), data_type: DataType::Float, nullable: false, unique: false },
            ColumnDefinition { name: "n".to_string(), data_type: DataType::Integer, nullable: false, unique: false },
            ColumnDefinition { name: "t".to_string(), data_type: DataType::Text, nullable: false, unique: false },
        ],
    }
}

fn data() -> ColumnMap {
    ColumnMap {
        columns: vec![
            (
                "a".to_string(),
                vec![Value::Float(1.0f32.to_bits()), Value::Float(2.0f32.to_bits()), Value::Float(3.0f32.to_bits())],
            ),
            ("n".to_string(), vec![Value::Integer(1), Value::Integer(-1), Value::Integer(i32::MIN)]),
        ],
    }
}

#[test]
fn workgroups_are_rows_over_64_rounded_up() {
    assert_eq!(ShaderExecutor::workgroups(0), 0);
    assert_eq!(ShaderExecutor::workgroups(1), 1);
    assert_eq!(ShaderExecutor::workgroups(64), 1);
    assert_eq!(ShaderExecutor::workgroups(65), 2);
    assert_eq!(ShaderExecutor::workgroups(1000), 16);
}

#[test]
fn words_hold_integers_in_twos_complement_and_floats_as_bits() {
    let d = data();
    assert_eq!(
        ShaderExecutor::column_words(&d.columns[0].1, DataType::Float),
        vec![1.0f32.to_bits(), 2.0f32.to_bits(), 3.0f32.to_bits()]
    );
    assert_eq!(
        ShaderExecutor::column_words(&d.columns[1].1, DataType::Integer),
        vec![1, 0xFFFF_FFFF, 0x8000_0000]
    );
}

#[test]
fn a_plan_has_a_buffer_of_four_bytes_to_a_value_for_each_column() {
    let executor = ShaderExecutor;
    assert!(executor.ready(&data(), &table()));
    let plan = executor.plan(&data(), &table());
    assert_eq!(plan.keys, vec!["a", "n"]);
    assert_eq!(plan.workgroups, 1);
    assert_eq!(plan.bindings, vec![0, 1]);
    assert_eq!(plan.output_words, vec![3, 3]);
    assert_eq!(
        plan.words,
        vec![
            vec![1.0f32.to_bits(), 2.0f32.to_bits(), 3.0f32.to_bits()],
            vec![1, 0xFFFF_FFFF, 0x8000_0000],
        ]
    );
}

#[test]
fn a_buffer_has_four_bytes_to_a_word() {
    let plan = ShaderExecutor.plan(&data(), &table());
    let floats: Vec<u8> = [1.0f32, 2.0, 3.0].iter().flat_map(|x| x.to_ne_bytes()).collect();
    assert_eq!(ShaderExecutor::buffer(&plan.words[0]), floats);
    let ints: Vec<u8> = [1i32, -1, i32::MIN].iter().flat_map(|x| x.to_ne_bytes()).collect();
    assert_eq!(ShaderExecutor::buffer(&plan.words[1]), ints);
    assert_eq!(ShaderExecutor::buffer(&Vec::new()), Vec::<u8>::new());
}

#[test]
fn data_that_cannot_be_uploaded_is_not_ready() {
    let executor = ShaderExecutor;
    assert!(!executor.ready(&ColumnMap { columns: Vec::new() }, &table()));
    let text = ColumnMap { columns: vec![("t".to_string(), vec![Value::Text("x".to_string())])] };
    assert!(!executor.ready(&text, &table()));
    let unknown = ColumnMap { columns: vec![("z".to_string(), vec![Value::Float(0)])] };
    assert!(!executor.ready(&unknown, &table()));
    let mixed = ColumnMap { columns: vec![("a".to_string(), vec![Value::Float(0), Value::Integer(0)])] };
    assert!(!executor.ready(&mixed, &table()));
    assert!(!ShaderExecutor::can_upload(&vec![Value::Boolean(true)], DataType::Boolean));
    assert!(ShaderExecutor::can_upload(&Vec::new(), DataType::Integer));
}

#[test]
fn what_is_read_back_is_typed_as_its_column_is() {
    let executor = ShaderExecutor;
    let keys = vec!["a".to_string(), "n".to_string(), "extra".to_string()];
    let outputs = vec![vec![2.0f32.to_bits(), 4.0f32.to_bits()], vec![7, 0xFFFF_FFFE]];
    let map = executor.collect(&table(), &keys, &outputs);
    assert_eq!(
        map.columns,
        vec![
            ("a".to_string(), vec![Value::Float(2.0f32.to_bits()), Value::Float(4.0f32.to_bits())]),
            ("n".to_string(), vec![Value::Integer(7), Value::Integer(-2)]),
        ]
    );
}

#[test]
fn an_integer_column_comes_back_as_integers() {
    let executor = ShaderExecutor;
    let n = ColumnMap {
        columns: vec![("n".to_string(), vec![Value::Integer(1), Value::Integer(2), Value::Integer(3)])],
    };
    let plan = executor.plan(&n, &table());
    let outputs: Vec<Vec<u32>> = plan.words.iter().map(|w| w.iter().map(|x| x + 1).collect()).collect();
    let map = executor.collect(&table(), &plan.keys, &outputs);
    assert_eq!(
        map.columns,
        vec![("n".to_string(), vec![Value::Integer(2), Value::Integer(3), Value::Integer(4)])]
    );
}

#[test]
fn a_column_that_is_not_written_comes_back_unchanged() {
    let executor = ShaderExecutor;
    let plan = executor.plan(&data(), &table());
    let map = executor.collect(&table(), &plan.keys, &plan.words);
    assert_eq!(map.columns, data().columns);
}

#[test]
fn words_of_an_unknown_column_are_taken_for_floats() {
    let map = ShaderExecutor.collect(&table(), &vec!["z".to_string()], &vec![vec![5]]);
    assert_eq!(map.columns, vec![("z".to_string(), vec![Value::Float(5)])]);
    assert_eq!(ShaderExecutor::typed_values(None, &vec![1, 2]), vec![Value::Float(1), Value::Float(2)]);
}

#[test]
fn a_run_gives_the_columns_of_the_data_with_what_was_read_back() {
    let executor = ShaderExecutor;
    let plan = executor.plan(&data(), &table());
    let same = executor.run(&data(), &table(), &plan.words);
    assert_eq!(same.columns, data().columns);
    let outputs = vec![plan.words[0].clone(), plan.words[1].iter().map(|w| w.wrapping_add(1)).collect()];
    let map = executor.run(&data(), &table(), &outputs);
    assert_eq!(map.columns[0], data().columns[0]);
    assert_eq!(
        map.columns[1],
        ("n".to_string(), vec![Value::Integer(2), Value::Integer(0), Value::Integer(i32::MIN + 1)])
    );
}
