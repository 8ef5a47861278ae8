use rql::codec::{read_value, serialize_from_value};
use rql::literal::{integer_to_text, parse_bool, parse_i32, parse_literal, serialize_value, unquote};
use rql::types::{DataType, ErrorKind, Value};

fn chars(s: &str) -> Vec<char> {
    s.chars().collect()
}

fn decoded(bytes: &[u8], at: usize, t: DataType) -> Result<(String, usize), ErrorKind> {
    let v = bytes.to_vec();
    read_value(&v, at, t).map(|(value, next)| (format!("{:?}", value), next))
}

#[test]
fn an_integer_is_four_bytes_little_endian() {
    assert_eq!(serialize_from_value(&Value::Integer(1)).unwrap(), vec![1, 0, 0, 0]);
    assert_eq!(serialize_from_value(&Value::Integer(-2)).unwrap(), vec![0xFE, 0xFF, 0xFF, 0xFF]);
    assert_eq!(
        serialize_from_value(&Value::Integer(0x1234_5678)).unwrap(),
        vec![0x78, 0x56, 0x34, 0x12]
    );
    assert_eq!(
        serialize_from_value(&Value::Integer(i32::MIN)).unwrap(),
        vec![0, 0, 0, 0x80]
    );
}

#[test]
fn a_float_is_the_four_bytes_of_its_bits() {
    let bits = 1.5f32.to_bits();
    assert_eq!(serialize_from_value(&Value::Float(bits)).unwrap(), 1.5f32.to_le_bytes().to_vec());
}

#[test]
fn a_boolean_is_one_byte() {
    assert_eq!(serialize_from_value(&Value::Boolean(false)).unwrap(), vec![0]);
    assert_eq!(serialize_from_value(&Value::Boolean(true)).unwrap(), vec![1]);
}

#[test]
fn a_text_is_its_length_and_its_utf8_bytes() {
    assert_eq!(
        serialize_from_value(&Value::Text("hé".to_string())).unwrap(),
        vec![3, 0, 0, 0, 0, 0, 0, 0, b'h', 0xC3, 0xA9]
    );
    assert_eq!(
        serialize_from_value(&Value::Text(String::new())).unwrap(),
        vec![0, 0, 0, 0, 0, 0, 0, 0]
    );
}

#[test]
fn the_stored_forms_are_those_of_bincode() {
    assert_eq!(
        serialize_from_value(&Value::Integer(-77)).unwrap(),
        bincode::serialize(&-77i32).unwrap()
    );
    assert_eq!(
        serialize_from_value(&Value::Float(3.25f32.to_bits())).unwrap(),
        bincode::serialize(&3.25f32).unwrap()
    );
    assert_eq!(
        serialize_from_value(&Value::Boolean(true)).unwrap(),
        bincode::serialize(&true).unwrap()
    );
    assert_eq!(
        serialize_from_value(&Value::Text("alice".to_string())).unwrap(),
        bincode::serialize(&"alice".to_string()).unwrap()
    );
}

#[test]
fn values_are_read_back_with_the_index_after_them() {
    let bytes = [9u8, 0xFE, 0xFF, 0xFF, 0xFF, 1, 7];
    assert_eq!(decoded(&bytes, 1, DataType::Integer), Ok(("Integer(-2)".to_string(), 5)));
    assert_eq!(decoded(&bytes, 5, DataType::Boolean), Ok(("Boolean(true)".to_string(), 6)));
    let f = 2.0f32.to_le_bytes();
    assert_eq!(
        decoded(&f, 0, DataType::Float),
        Ok((format!("Float({})", 2.0f32.to_bits()), 4))
    );
    let t = [2u8, 0, 0, 0, 0, 0, 0, 0, b'o', b'k', b'!'];
    assert_eq!(decoded(&t, 0, DataType::Text), Ok(("Text(\"ok\")".to_string(), 10)));
}

#[test]
fn bytes_that_hold_no_value_are_invalid_data() {
    assert_eq!(decoded(&[1, 2, 3], 0, DataType::Integer), Err(ErrorKind::InvalidData));
    assert_eq!(decoded(&[1, 2, 3], 0, DataType::Float), Err(ErrorKind::InvalidData));
    assert_eq!(decoded(&[], 0, DataType::Boolean), Err(ErrorKind::InvalidData));
    assert_eq!(decoded(&[2], 0, DataType::Boolean), Err(ErrorKind::InvalidData));
    assert_eq!(decoded(&[1, 0, 0, 0, 0, 0, 0], 0, DataType::Text), Err(ErrorKind::InvalidData));
    assert_eq!(
        decoded(&[3, 0, 0, 0, 0, 0, 0, 0, b'a', b'b'], 0, DataType::Text),
        Err(ErrorKind::InvalidData)
    );
    assert_eq!(
        decoded(&[0xFF, 0xFF, 0xFF, 0xFF, 0xFF, 0xFF, 0xFF, 0xFF, b'a'], 0, DataType::Text),
        Err(ErrorKind::InvalidData)
    );
    assert_eq!(
        decoded(&[2, 0, 0, 0, 0, 0, 0, 0, 0xC3, 0x28], 0, DataType::Text),
        Err(ErrorKind::InvalidData)
    );
}

#[test]
fn integer_literals_are_read_as_std_reads_them() {
    for s in [
        "0", "7", "-7", "+7", "007", "-0", "2147483647", "-2147483648", "2147483648",
        "-2147483649", "99999999999999999999", "", "-", "+", "1 ", " 1", "1.0", "0x10", "--1",
        "1-", "١",
    ] {
        assert_eq!(parse_i32(&chars(s)), s.parse::<i32>().ok(), "{:?}", s);
    }
}

#[test]
fn boolean_literals_are_the_two_words() {
    assert_eq!(parse_bool(&chars("true")), Some(true));
    assert_eq!(parse_bool(&chars("false")), Some(false));
    assert_eq!(parse_bool(&chars("TRUE")), None);
    assert_eq!(parse_bool(&chars("1")), None);
    assert_eq!(parse_bool(&chars("")), None);
}

#[test]
fn one_pair_of_quotes_is_taken_off() {
    assert_eq!(unquote(&chars("'alice'")), chars("alice"));
    assert_eq!(unquote(&chars("''")), chars(""));
    assert_eq!(unquote(&chars("'")), chars("'"));
    assert_eq!(unquote(&chars("alice")), chars("alice"));
    assert_eq!(unquote(&chars("'alice")), chars("'alice"));
    assert_eq!(unquote(&chars("''x''")), chars("'x'"));
}

#[test]
fn literals_become_values_of_the_column_type() {
    match parse_literal("42", &DataType::Integer, None) {
        Ok(Value::Integer(42)) => {}
        other => panic!("{:?}", other),
    }
    match parse_literal("'bob'", &DataType::Text, None) {
        Ok(Value::Text(s)) => assert_eq!(s, "bob"),
        other => panic!("{:?}", other),
    }
    match parse_literal("true", &DataType::Boolean, None) {
        Ok(Value::Boolean(true)) => {}
        other => panic!("{:?}", other),
    }
    let bits = "1.5".parse::<f32>().ok().map(f32::to_bits);
    match parse_literal("1.5", &DataType::Float, bits) {
        Ok(Value::Float(b)) => assert_eq!(f32::from_bits(b), 1.5),
        other => panic!("{:?}", other),
    }
}

#[test]
fn a_literal_of_the_wrong_type_is_invalid_input() {
    assert_eq!(serialize_value("abc", &DataType::Integer, None), Err(ErrorKind::InvalidInput));
    assert_eq!(serialize_value("yes", &DataType::Boolean, None), Err(ErrorKind::InvalidInput));
    assert_eq!(serialize_value("abc", &DataType::Float, None), Err(ErrorKind::InvalidInput));
}

#[test]
fn a_literal_is_stored_as_its_value_is() {
    assert_eq!(serialize_value("-2", &DataType::Integer, None), Ok(vec![0xFE, 0xFF, 0xFF, 0xFF]));
    assert_eq!(serialize_value("false", &DataType::Boolean, None), Ok(vec![0]));
    assert_eq!(
        serialize_value("'hi'", &DataType::Text, None),
        Ok(vec![2, 0, 0, 0, 0, 0, 0, 0, b'h', b'i'])
    );
    assert_eq!(
        serialize_value("10.0", &DataType::Float, Some(10.0f32.to_bits())),
        Ok(10.0f32.to_le_bytes().to_vec())
    );
}

#[test]
fn integers_are_written_in_base_ten() {
    for i in [0i64, 5, 10, -1, 1234567890, i32::MIN as i64, i32::MAX as i64, i64::MIN, i64::MAX] {
        assert_eq!(integer_to_text(i), chars(&i.to_string()));
    }
}

#[test]
fn values_are_written_as_text() {
    assert_eq!(Value::Integer(-12).render(""), "-12");
    assert_eq!(Value::Boolean(true).render(""), "true");
    assert_eq!(Value::Boolean(false).render("x"), "false");
    assert_eq!(Value::Text("a b".to_string()).render("x"), "a b");
    let x = 2.5f32;
    assert_eq!(Value::Float(x.to_bits()).render(&x.to_string()), "2.5");
}
