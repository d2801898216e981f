use table_query::error::{Error, FilterError};
use table_query::filter::{ApplyColumnFilterByValue, FilterByValue, Operation};
use table_query::table::{ColumnType, ColumnValue, IntegerColumnType, StringColumnType};

fn int_value(v: i64) -> ColumnValue {
    ColumnValue::Integer(IntegerColumnType(v))
}

fn str_value(s: &str) -> ColumnValue {
    ColumnValue::String(StringColumnType(s.to_string()))
}

fn filter(op: Operation, value: ColumnValue) -> FilterByValue {
    FilterByValue {
        operation: op,
        value,
    }
}

#[test]
fn integer_operator_semantics() {
    let three = int_value(3);
    assert_eq!(
        three.apply_filter_by_value(&filter(Operation::Equal, int_value(3))).unwrap(),
        true
    );
    assert_eq!(
        three.apply_filter_by_value(&filter(Operation::Equal, int_value(4))).unwrap(),
        false
    );
    assert_eq!(
        three.apply_filter_by_value(&filter(Operation::GreaterThan, int_value(2))).unwrap(),
        true
    );
    assert_eq!(
        three.apply_filter_by_value(&filter(Operation::GreaterThan, int_value(3))).unwrap(),
        false
    );
    assert_eq!(
        three.apply_filter_by_value(&filter(Operation::LessThan, int_value(4))).unwrap(),
        true
    );
    assert_eq!(
        three.apply_filter_by_value(&filter(Operation::LessThan, int_value(-4))).unwrap(),
        false
    );
}

#[test]
fn string_operator_semantics() {
    let b = str_value("b");
    assert_eq!(
        b.apply_filter_by_value(&filter(Operation::Equal, str_value("b"))).unwrap(),
        true
    );
    assert_eq!(
        b.apply_filter_by_value(&filter(Operation::Equal, str_value("a"))).unwrap(),
        false
    );
    assert_eq!(
        b.apply_filter_by_value(&filter(Operation::GreaterThan, str_value("a"))).unwrap(),
        true
    );
    assert_eq!(
        b.apply_filter_by_value(&filter(Operation::GreaterThan, str_value("ba"))).unwrap(),
        false
    );
    assert_eq!(
        b.apply_filter_by_value(&filter(Operation::LessThan, str_value("ba"))).unwrap(),
        true
    );
    assert_eq!(
        b.apply_filter_by_value(&filter(Operation::LessThan, str_value("abc"))).unwrap(),
        false
    );
}

#[test]
fn kind_mismatch_yields_invalid_filter_value_type() {
    let int = int_value(1);
    let text = str_value("1");
    match int.apply_filter_by_value(&filter(Operation::Equal, str_value("1"))) {
        Err(Error::Filter(FilterError::InvalidFilterValueType)) => {}
        _ => panic!("expected the value-kind mismatch error"),
    }
    match text.apply_filter_by_value(&filter(Operation::GreaterThan, int_value(1))) {
        Err(Error::Filter(FilterError::InvalidFilterValueType)) => {}
        _ => panic!("expected the value-kind mismatch error"),
    }
}

#[test]
fn value_parsing_prefers_integers() {
    assert_eq!(ColumnValue::from_str("123").unwrap(), int_value(123));
    assert_eq!(ColumnValue::from_str("007").unwrap(), int_value(7));
    assert_eq!(ColumnValue::from_str("+5").unwrap(), int_value(5));
    assert_eq!(ColumnValue::from_str("-42").unwrap(), int_value(-42));
    assert_eq!(
        ColumnValue::from_str("-9223372036854775808").unwrap(),
        int_value(i64::MIN)
    );
    assert_eq!(
        ColumnValue::from_str("9223372036854775807").unwrap(),
        int_value(i64::MAX)
    );
    assert_eq!(
        ColumnValue::from_str("9223372036854775808").unwrap(),
        str_value("9223372036854775808")
    );
    assert_eq!(ColumnValue::from_str("abc").unwrap(), str_value("abc"));
    assert_eq!(ColumnValue::from_str("1 2").unwrap(), str_value("1 2"));
    assert_eq!(ColumnValue::from_str("").unwrap(), str_value(""));
    assert_eq!(ColumnValue::from_str("+").unwrap(), str_value("+"));
}

#[test]
fn integer_column_type_parsing() {
    assert_eq!(IntegerColumnType::from_str("17").unwrap(), IntegerColumnType(17));
    match IntegerColumnType::from_str("x") {
        Err(Error::ValueParse(_)) => {}
        _ => panic!("expected a value parse error"),
    }
}

#[test]
fn accessors_follow_the_kind() {
    let i = int_value(9);
    let s = str_value("t");
    assert_eq!(i.get_type(), ColumnType::Integer);
    assert_eq!(s.get_type(), ColumnType::String);
    assert_eq!(i.as_integer(), Some(IntegerColumnType(9)));
    assert_eq!(s.as_integer(), None);
    assert_eq!(i.as_string(), None);
    assert_eq!(s.as_string(), Some(&StringColumnType("t".to_string())));
}

#[test]
fn rendering_values() {
    assert_eq!(int_value(0).render(), "0");
    assert_eq!(int_value(-42).render(), "-42");
    assert_eq!(int_value(1234567890).render(), "1234567890");
    assert_eq!(int_value(i64::MIN).render(), "-9223372036854775808");
    assert_eq!(str_value("value").render(), "\"value\"");
    assert_eq!(str_value("").render(), "\"\"");
}

#[test]
fn error_messages() {
    assert_eq!(
        FilterError::Parse("bad".to_string()).message(),
        "Parsing failed: bad"
    );
    assert_eq!(
        FilterError::InvalidFilterValueType.message(),
        "The filter operation is invalid due to having an invalid value type"
    );
    assert_eq!(
        FilterError::ValuesCannotBeCompared.message(),
        "The values cannot be compared"
    );
    assert_eq!(
        Error::Filter(FilterError::ValuesCannotBeCompared).message(),
        "Filter: The values cannot be compared"
    );
    assert_eq!(
        Error::ValueParse("oops".to_string()).message(),
        "Value parse: oops"
    );
    assert_eq!(Error::Other("elsewhere".to_string()).message(), "Other: elsewhere");
    assert_eq!(
        Error::from(FilterError::ValuesCannotBeCompared).message(),
        "Filter: The values cannot be compared"
    );
}
