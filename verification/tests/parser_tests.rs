use table_query::error::{Error, FilterError};
use table_query::filter::Operation;
use table_query::parser::parse_filter_query;
use table_query::table::{ColumnValue, IntegerColumnType, StringColumnType};

#[test]
fn parse_filter_query_succeeds() {
    let query = r#"PROJECT col1, col2 FILTER col1 = 5, col2 = "value""#;
    let filter = parse_filter_query(query).unwrap();

    assert_eq!(
        filter.output_columns,
        vec!["col1".to_string(), "col2".to_string()]
    );

    let col1_filter = filter.get_filter("col1").unwrap();
    assert_eq!(col1_filter.operation, Operation::Equal);
    assert_eq!(
        col1_filter.value,
        ColumnValue::Integer(IntegerColumnType(5))
    );

    let col2_filter = filter.get_filter("col2").unwrap();
    assert_eq!(col2_filter.operation, Operation::Equal);
    assert_eq!(
        col2_filter.value,
        ColumnValue::String(StringColumnType("value".to_string()))
    );
}

#[test]
fn empty_columns_before_filter_fails_with_parse_error() {
    let r = parse_filter_query("PROJECT FILTER");
    match r {
        Err(Error::Filter(FilterError::Parse(_))) => {}
        _ => panic!("expected a parse error"),
    }
}

#[test]
fn unknown_operator_fails_parsing() {
    let r = parse_filter_query("PROJECT col1 FILTER col1 != 5");
    match r {
        Err(Error::Filter(FilterError::Parse(_))) => {}
        _ => panic!("expected a parse error"),
    }
}

#[test]
fn missing_keywords_fail_parsing() {
    assert!(parse_filter_query("").is_err());
    assert!(parse_filter_query("SELECT col1 FILTER col1 = 5").is_err());
    assert!(parse_filter_query("PROJECT col1").is_err());
    assert!(parse_filter_query("PROJECT col1 WHERE col1 = 5").is_err());
    assert!(parse_filter_query(" PROJECT col1 FILTER col1 = 5").is_err());
}

#[test]
fn later_filter_on_same_column_wins() {
    let filter = parse_filter_query("PROJECT a FILTER a = 1, a = 2").unwrap();
    assert_eq!(filter.filters.len(), 1);
    let f = filter.get_filter("a").unwrap();
    assert_eq!(f.operation, Operation::Equal);
    assert_eq!(f.value, ColumnValue::Integer(IntegerColumnType(2)));
}

#[test]
fn whitespace_between_tokens_is_not_significant() {
    let filter = parse_filter_query("PROJECT   a ,  b   FILTER   a   >   5").unwrap();
    assert_eq!(filter.output_columns, vec!["a".to_string(), "b".to_string()]);
    let f = filter.get_filter("a").unwrap();
    assert_eq!(f.operation, Operation::GreaterThan);
    assert_eq!(f.value, ColumnValue::Integer(IntegerColumnType(5)));
}

#[test]
fn trailing_text_after_a_complete_query_is_ignored() {
    let filter = parse_filter_query("PROJECT a FILTER a = 5 ???").unwrap();
    assert_eq!(filter.output_columns, vec!["a".to_string()]);
    assert_eq!(
        filter.get_filter("a").unwrap().value,
        ColumnValue::Integer(IntegerColumnType(5))
    );
}

#[test]
fn quoted_empty_string_value_parses() {
    let filter = parse_filter_query(r#"PROJECT a FILTER a = """#).unwrap();
    assert_eq!(
        filter.get_filter("a").unwrap().value,
        ColumnValue::String(StringColumnType(String::new()))
    );
}

#[test]
fn digits_separated_by_spaces_form_a_string_value() {
    // The value rule is not atomic, so whitespace may stand between its
    // digits; the matched slice keeps it and no longer parses as an integer.
    let filter = parse_filter_query("PROJECT a FILTER a = 1 2").unwrap();
    assert_eq!(
        filter.get_filter("a").unwrap().value,
        ColumnValue::String(StringColumnType("1 2".to_string()))
    );
}

#[test]
fn oversized_integer_literal_becomes_a_string() {
    let filter = parse_filter_query("PROJECT a FILTER a = 9223372036854775808").unwrap();
    assert_eq!(
        filter.get_filter("a").unwrap().value,
        ColumnValue::String(StringColumnType("9223372036854775808".to_string()))
    );
}

#[test]
fn operation_symbols_round_trip() {
    assert_eq!(Operation::Equal.as_str(), "=");
    assert_eq!(Operation::GreaterThan.as_str(), ">");
    assert_eq!(Operation::LessThan.as_str(), "<");
    assert_eq!(Operation::from_str("=").unwrap(), Operation::Equal);
    assert_eq!(Operation::from_str(">").unwrap(), Operation::GreaterThan);
    assert_eq!(Operation::from_str("<").unwrap(), Operation::LessThan);
    match Operation::from_str("!=") {
        Err(Error::Filter(FilterError::Parse(_))) => {}
        _ => panic!("expected a parse error"),
    }
    assert!(Operation::from_str("").is_err());
}
