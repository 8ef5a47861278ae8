use rql::parser::{Assignment, ExpressionParser};

fn parsed(input: &str) -> Vec<(String, String)> {
    match ExpressionParser::parse(input) {
        Ok(p) => p
            .assignments
            .iter()
            .map(|a: &Assignment| (a.variable.clone(), a.expression.clone()))
            .collect(),
        Err(e) => panic!("{}", e),
    }
}

#[test]
fn test_assign_name() {
    let input = "columnname3 = columnname2 - sin(columnname1)";

    match ExpressionParser::parse(input) {
        Ok(parsed) => {
            assert_eq!(parsed.assignments.len(), 1);
            assert_eq!(parsed.assignments.iter().next().unwrap().variable, "columnname3");
        }
        Err(err) => panic!("Error: {}", err),
    }
}

#[test]
fn expression_is_the_source_text_of_the_right_hand_side() {
    let list = parsed("a = b - sin(c)");
    assert_eq!(list, vec![("a".to_string(), "b - sin(c)".to_string())]);
}

#[test]
fn assignments_come_in_the_order_written() {
    let list = parsed("a = a * 2, b = b + a");
    assert_eq!(
        list,
        vec![
            ("a".to_string(), "a * 2".to_string()),
            ("b".to_string(), "b + a".to_string()),
        ]
    );
}

#[test]
fn white_space_around_the_program_is_dropped() {
    let list = parsed("  \t x=1.5  \n");
    assert_eq!(list, vec![("x".to_string(), "1.5".to_string())]);
}

#[test]
fn commas_inside_a_call_separate_arguments() {
    let list = parsed("m = max( a , min(b, 2) ) / (c + 1), n = m");
    assert_eq!(
        list,
        vec![
            ("m".to_string(), "max( a , min(b, 2) ) / (c + 1)".to_string()),
            ("n".to_string(), "m".to_string()),
        ]
    );
}

#[test]
fn nested_brackets_are_read() {
    let list = parsed("x = ((a))");
    assert_eq!(list, vec![("x".to_string(), "((a))".to_string())]);
}

#[test]
fn an_empty_program_fails_at_its_start() {
    let e = ExpressionParser::parse("").err().unwrap();
    assert_eq!(e, "Parse error: unexpected input at position 0");
}

#[test]
fn a_missing_equals_sign_fails_where_it_is_due() {
    let e = ExpressionParser::parse("a b").err().unwrap();
    assert_eq!(e, "Parse error: unexpected input at position 2");
}

#[test]
fn a_missing_expression_fails_after_the_equals_sign() {
    let e = ExpressionParser::parse("a = ").err().unwrap();
    assert_eq!(e, "Parse error: unexpected input at position 3");
}

#[test]
fn a_dangling_operator_fails_at_the_operator() {
    let e = ExpressionParser::parse("a = b +").err().unwrap();
    assert_eq!(e, "Parse error: unexpected input at position 6");
}

#[test]
fn an_unclosed_bracket_fails() {
    let e = ExpressionParser::parse("a = (b + 1").err().unwrap();
    assert_eq!(e, "Parse error: unexpected input at position 4");
}

#[test]
fn a_trailing_comma_fails_at_the_end() {
    let e = ExpressionParser::parse("a = 1,").err().unwrap();
    assert_eq!(e, "Parse error: unexpected input at position 6");
}

#[test]
fn a_statement_terminator_is_not_part_of_the_program() {
    let e = ExpressionParser::parse("a = 1;").err().unwrap();
    assert_eq!(e, "Parse error: unexpected input at position 5");
}

#[test]
fn a_number_may_have_a_fraction_but_not_a_bare_point() {
    assert!(ExpressionParser::parse("a = 10.25").is_ok());
    assert!(ExpressionParser::parse("a = 10.").is_err());
    assert!(ExpressionParser::parse("a = .5").is_err());
}

#[test]
fn an_identifier_cannot_begin_with_a_digit() {
    assert!(ExpressionParser::parse("1a = 2").is_err());
    assert!(ExpressionParser::parse("_a1 = _b2").is_ok());
}
