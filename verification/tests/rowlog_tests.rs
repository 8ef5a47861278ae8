use rql::rowlog::{append_frame, decode_row, encode_rows, frame_payload, frame_rows, scan_rows};
use rql::types::{ColumnDefinition, DataType, ErrorKind, Row, TableDefinition, Value};

fn users() -> TableDefinition {
    TableDefinition {
        name: "users".to_string(),
        columns: vec![
            ColumnDefinition { name: "id".to_string(), data_type: DataType::Integer, nullable: false, unique: true },
            ColumnDefinition { name: "name".to_string(), data_type: DataType::Text, nullable: false, unique: false },
            ColumnDefinition { name: "is_active".to_string(), data_type: DataType::Boolean, nullable: true, unique: false },
        ],
    }
}

fn user(id: i32, name: &str, active: bool) -> Row {
    Row {
        fields: vec![
            ("id".to_string(), Value::Integer(id)),
            ("name".to_string(), Value::Text(name.to_string())),
            ("is_active".to_string(), Value::Boolean(active)),
        ],
    }
}

fn shown(rows: &[Row]) -> Vec<String> {
    rows.iter().map(|r| format!("{:?}", r.fields)).collect()
}

#[test]
fn a_frame_is_marker_size_marker_payload() {
    let payload = vec![7u8, 8, 9];
    assert_eq!(
        frame_payload(&payload),
        vec![0xAB, 3, 0, 0, 0, 0, 0, 0, 0, 0xCD, 7, 8, 9]
    );
    assert_eq!(frame_payload(&Vec::new()), vec![0xAB, 0, 0, 0, 0, 0, 0, 0, 0, 0xCD]);
}

#[test]
fn a_long_payload_has_its_length_in_the_size_field() {
    let payload = vec![0x5Au8; 0x1_02_03];
    let f = frame_payload(&payload);
    assert_eq!(f[0], 0xAB);
    assert_eq!(&f[1..9], &(payload.len() as u64).to_le_bytes());
    assert_eq!(f[9], 0xCD);
    assert_eq!(&f[10..], &payload[..]);
}

#[test]
fn appending_adds_a_frame_to_the_end() {
    let mut log = vec![1u8, 2];
    append_frame(&mut log, &vec![9u8]);
    assert_eq!(log, vec![1, 2, 0xAB, 1, 0, 0, 0, 0, 0, 0, 0, 0xCD, 9]);
}

#[test]
fn rows_given_in_parts_are_framed_whole() {
    let data = vec![vec![vec![1u8, 2], vec![], vec![3u8]], vec![], vec![vec![4u8]]];
    let mut expected = Vec::new();
    expected.extend(frame_payload(&vec![1, 2, 3]));
    expected.extend(frame_payload(&vec![]));
    expected.extend(frame_payload(&vec![4]));
    assert_eq!(frame_rows(&data), expected);
    assert_eq!(frame_rows(&Vec::new()), Vec::<u8>::new());
}

#[test]
fn rows_that_were_written_are_scanned_back_in_order() {
    let rows = vec![user(1, "alice", true), user(2, "bob", false), user(-3, "", true)];
    let log = encode_rows(&rows);
    let back = scan_rows(&log, &users()).unwrap();
    assert_eq!(shown(&back), shown(&rows));
}

#[test]
fn a_row_is_laid_out_field_after_field() {
    let log = encode_rows(&vec![user(1, "al", true)]);
    assert_eq!(
        log,
        vec![
            0xAB, 15, 0, 0, 0, 0, 0, 0, 0, 0xCD, 1, 0, 0, 0, 2, 0, 0, 0, 0, 0, 0, 0, b'a', b'l', 1
        ]
    );
}

#[test]
fn an_empty_log_has_no_rows() {
    assert!(scan_rows(&Vec::new(), &users()).unwrap().is_empty());
}

#[test]
fn a_wrong_start_marker_is_invalid_data() {
    let mut log = encode_rows(&vec![user(1, "alice", true)]);
    log[0] = 0x00;
    assert_eq!(scan_rows(&log, &users()).err(), Some(ErrorKind::InvalidData));
}

#[test]
fn a_wrong_end_marker_is_invalid_data() {
    let mut log = encode_rows(&vec![user(1, "alice", true)]);
    log[9] = 0x00;
    assert_eq!(scan_rows(&log, &users()).err(), Some(ErrorKind::InvalidData));
}

#[test]
fn a_log_that_ends_inside_a_frame_is_unexpected_eof() {
    let log = encode_rows(&vec![user(1, "alice", true), user(2, "bob", false)]);
    for cut in [1usize, 5, 9, 10, 12, log.len() - 1] {
        let part = log[..cut].to_vec();
        assert_eq!(scan_rows(&part, &users()).err(), Some(ErrorKind::UnexpectedEof), "{}", cut);
    }
    let first = encode_rows(&vec![user(1, "alice", true)]).len();
    let whole = log[..first].to_vec();
    assert_eq!(scan_rows(&whole, &users()).unwrap().len(), 1);
}

#[test]
fn a_payload_that_is_too_short_for_the_columns_is_invalid_data() {
    let log = frame_payload(&vec![1, 0, 0, 0]);
    assert_eq!(scan_rows(&log, &users()).err(), Some(ErrorKind::InvalidData));
}

#[test]
fn a_bad_frame_after_good_ones_fails_the_scan() {
    let mut log = encode_rows(&vec![user(1, "alice", true)]);
    log.push(0x01);
    assert_eq!(scan_rows(&log, &users()).err(), Some(ErrorKind::InvalidData));
}

#[test]
fn a_payload_is_read_by_the_columns() {
    let payload = vec![5, 0, 0, 0, 1, 0, 0, 0, 0, 0, 0, 0, b'x', 0];
    let row = decode_row(&payload, &users()).unwrap();
    assert_eq!(shown(&[row]), shown(&[user(5, "x", false)]));
    assert_eq!(decode_row(&vec![5, 0, 0, 0], &users()).err(), Some(ErrorKind::InvalidData));
}

#[test]
fn a_payload_with_bytes_after_its_fields_is_invalid_data() {
    let payload = vec![5, 0, 0, 0, 1, 0, 0, 0, 0, 0, 0, 0, b'x', 0, 9];
    assert_eq!(decode_row(&payload, &users()).err(), Some(ErrorKind::InvalidData));
    let log = frame_payload(&payload);
    assert_eq!(scan_rows(&log, &users()).err(), Some(ErrorKind::InvalidData));
}

#[test]
fn rows_and_values_are_equal_when_their_contents_are() {
    assert!(user(1, "a", true) == user(1, "a", true));
    assert!(user(1, "a", true) != user(2, "a", true));
    assert!(user(1, "a", true) != user(1, "b", true));
    assert!(user(1, "a", true) != Row { fields: Vec::new() });
    assert!(Value::Integer(1) != Value::Float(1));
    assert!(Value::Float(7) == Value::Float(7));
    assert!(Value::Boolean(true) != Value::Boolean(false));
    assert!(Value::Text("x".to_string()) == Value::Text("x".to_string()));
    let rows = vec![user(1, "alice", true), user(2, "bob", false)];
    assert_eq!(scan_rows(&encode_rows(&rows), &users()).unwrap(), rows);
}
