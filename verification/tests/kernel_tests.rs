use rql::kernel::{generate_kernel, substitute, KernelError};
use rql::parser::{Assignment, ExpressionParser};
use rql::types::{ColumnDefinition, ColumnMap, DataType, TableDefinition, Value};

fn column(name: &str, data_type: DataType) -> ColumnDefinition {
    ColumnDefinition { name: name.to_string(), data_type, nullable: true, unique: false }
}

fn table(columns: &[(&str, DataType)]) -> TableDefinition {
    TableDefinition {
        name: "t".to_string(),
        columns: columns.iter().map(|(n, t)| column(n, *t)).collect(),
    }
}

fn map(names: &[&str]) -> ColumnMap {
    ColumnMap {
        columns: names.iter().map(|n| (n.to_string(), vec![Value::Float(0)])).collect(),
    }
}

fn assignments(text: &str) -> Vec<Assignment> {
    ExpressionParser::parse(text).unwrap().assignments
}

#[test]
fn the_kernel_binds_each_column_and_rewrites_each_assignment() {
    let t = table(&[("x", DataType::Float), ("y", DataType::Integer)]);
    let source = generate_kernel(&t, &map(&["x", "y"]), &assignments("xy = x + y, x = xy * 2")).unwrap();
    let expected = "@group(0)\n@binding(0)\nvar<storage, read_write> x: array<f32>;\n\n\
@group(0)\n@binding(1)\nvar<storage, read_write> y: array<i32>;\n\n\
@compute\n@workgroup_size(64, 1, 1)\n\
fn main(@builtin(global_invocation_id) gid: vec3<u32>,\n        \
@builtin(local_invocation_id) lid: vec3<u32>,\n        \
@builtin(workgroup_id) wid: vec3<u32>) {\n    \
let sys_index = wid.x * 64u + lid.x;\n    \
if (sys_index < arrayLength(&x)) {\n        \
let xy = x[sys_index] + y[sys_index];\n        \
x[sys_index] = xy * 2;\n    \
}\n}\n";
    assert_eq!(source, expected);
}

#[test]
fn two_columns_have_the_bindings_zero_and_one() {
    let t = table(&[("x", DataType::Float), ("y", DataType::Float)]);
    let source = generate_kernel(&t, &map(&["x", "y"]), &assignments("x = y")).unwrap();
    assert_eq!(source.matches("@binding(").count(), 2);
    assert!(source.contains("@binding(0)\nvar<storage, read_write> x: array<f32>;"));
    assert!(source.contains("@binding(1)\nvar<storage, read_write> y: array<f32>;"));
    assert_eq!(source.matches("@workgroup_size(64, 1, 1)").count(), 1);
    assert_eq!(source.matches("fn main(").count(), 1);
}

#[test]
fn many_columns_are_bound_at_contiguous_indices() {
    let names: Vec<String> = (0..12).map(|i| format!("c{}", i)).collect();
    let refs: Vec<&str> = names.iter().map(|s| s.as_str()).collect();
    let cols: Vec<(&str, DataType)> = refs.iter().map(|n| (*n, DataType::Float)).collect();
    let source = generate_kernel(&table(&cols), &map(&refs), &Vec::new()).unwrap();
    for (i, n) in refs.iter().enumerate() {
        assert!(source.contains(&format!("@binding({})\nvar<storage, read_write> {}: ", i, n)));
    }
    assert_eq!(source.matches("@binding(").count(), 12);
}

#[test]
fn a_name_inside_a_longer_word_is_left_alone() {
    let m = map(&["x", "y"]);
    assert_eq!(substitute("x + y", &m).unwrap(), "x[sys_index] + y[sys_index]");
    assert_eq!(substitute("xy + yx + x_y", &m).unwrap(), "xy + yx + x_y");
    assert_eq!(substitute("sin(x)*x", &m).unwrap(), "sin(x[sys_index])*x[sys_index]");
    assert_eq!(substitute("x", &map(&[])).unwrap(), "x");
}

#[test]
fn without_a_column_there_is_no_kernel() {
    let t = table(&[("x", DataType::Float)]);
    assert_eq!(generate_kernel(&t, &map(&[]), &assignments("x = 1")), Err(KernelError::NoColumns));
}

#[test]
fn a_column_that_is_not_numeric_cannot_be_bound() {
    let t = table(&[("x", DataType::Float), ("n", DataType::Text)]);
    assert_eq!(
        generate_kernel(&t, &map(&["x", "n"]), &assignments("x = 1")),
        Err(KernelError::NotNumeric)
    );
    assert_eq!(
        generate_kernel(&t, &map(&["x", "z"]), &assignments("x = 1")),
        Err(KernelError::NotNumeric)
    );
}

#[test]
fn a_text_column_on_the_right_hand_side_is_rejected() {
    let t = table(&[("x", DataType::Float), ("name", DataType::Text), ("ok", DataType::Boolean)]);
    assert_eq!(
        generate_kernel(&t, &map(&["x"]), &assignments("x = x + name")),
        Err(KernelError::NonNumericReference)
    );
    assert_eq!(
        generate_kernel(&t, &map(&["x"]), &assignments("x = 1, x = x * ok")),
        Err(KernelError::NonNumericReference)
    );
    assert!(generate_kernel(&t, &map(&["x"]), &assignments("x = x + names + okay")).is_ok());
}

#[test]
fn a_name_that_is_no_pattern_is_reported() {
    let t = table(&[("x(", DataType::Float)]);
    assert_eq!(
        generate_kernel(&t, &map(&["x("]), &assignments("a = 1")),
        Err(KernelError::InvalidPattern)
    );
    assert!(generate_kernel(&t, &map(&["x("]), &Vec::new()).is_ok());
    assert_eq!(substitute("a", &map(&["x("])), None);
    let mixed = table(&[("x", DataType::Float), ("y[", DataType::Float)]);
    assert_eq!(
        generate_kernel(&mixed, &map(&["x", "y["]), &assignments("x = x + 1")),
        Err(KernelError::InvalidPattern)
    );
}
