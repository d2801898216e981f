use table_query::csv_table::CsvTable;
use table_query::filter::{
    ApplyTableFilterByValue, FilterByValue, FilterColumns, Operation, Row,
};
use table_query::parser::parse_filter_query;
use table_query::table::{ColumnValue, IntegerColumnType, StringColumnType};

fn two_column_table() -> CsvTable {
    let mut table = CsvTable::new();
    table.push_value("col1", ColumnValue::Integer(IntegerColumnType(1)));
    table.push_value("col1", ColumnValue::Integer(IntegerColumnType(2)));
    table.push_value(
        "col2",
        ColumnValue::String(StringColumnType("value1".to_string())),
    );
    table.push_value(
        "col2",
        ColumnValue::String(StringColumnType("value2".to_string())),
    );
    table
}

#[test]
fn projected_filtered_rows_from_parsed_query() {
    let table = two_column_table();
    let filter = parse_filter_query(r#"PROJECT col1,col2 FILTER col2 = "value1""#).unwrap();

    let rows: Vec<Row> = table.apply_filter(&filter).collect_rows();
    assert_eq!(rows.len(), 1);
    assert_eq!(rows[0].len(), 2);
    assert_eq!(
        rows[0].get("col1").unwrap(),
        &ColumnValue::Integer(IntegerColumnType(1))
    );
    assert_eq!(
        rows[0].get("col2").unwrap(),
        &ColumnValue::String(StringColumnType("value1".to_string()))
    );
}

#[test]
fn integer_greater_than_filter_keeps_only_larger_values() {
    let mut table = CsvTable::new();
    for v in [3i64, 7, 5, 10] {
        table.push_value("col1", ColumnValue::Integer(IntegerColumnType(v)));
    }
    let filter = parse_filter_query("PROJECT col1 FILTER col1 > 5").unwrap();

    let rows: Vec<Row> = table.apply_filter(&filter).collect_rows();
    assert_eq!(rows.len(), 2);
    assert_eq!(
        rows[0].get("col1").unwrap(),
        &ColumnValue::Integer(IntegerColumnType(7))
    );
    assert_eq!(
        rows[1].get("col1").unwrap(),
        &ColumnValue::Integer(IntegerColumnType(10))
    );
}

#[test]
fn empty_projection_yields_no_rows() {
    let table = two_column_table();
    let filter = FilterColumns {
        output_columns: vec![],
        filters: vec![(
            "col1".to_string(),
            FilterByValue {
                operation: Operation::GreaterThan,
                value: ColumnValue::Integer(IntegerColumnType(0)),
            },
        )],
    };

    let mut iter = table.apply_filter(&filter);
    let rows: Vec<Row> = table.apply_filter(&filter).collect_rows();
    assert_eq!(rows.len(), 0);
    assert!(iter.next().is_none());
}

#[test]
fn rows_come_out_one_at_a_time() {
    let table = two_column_table();
    let filter = parse_filter_query("PROJECT col1 FILTER col1 > 0").unwrap();

    let mut iter = table.apply_filter(&filter);
    let first = iter.next().unwrap();
    assert_eq!(
        first.get("col1").unwrap(),
        &ColumnValue::Integer(IntegerColumnType(1))
    );
    let second = iter.next().unwrap();
    assert_eq!(
        second.get("col1").unwrap(),
        &ColumnValue::Integer(IntegerColumnType(2))
    );
    assert!(iter.next().is_none());
    assert!(iter.next().is_none());
}

#[test]
fn rows_without_any_filtered_column_are_excluded() {
    let table = two_column_table();
    let filter = FilterColumns {
        output_columns: vec!["col1".to_string()],
        filters: vec![],
    };

    let rows: Vec<Row> = table.apply_filter(&filter).collect_rows();
    assert_eq!(rows.len(), 0);
}

#[test]
fn kind_mismatch_excludes_the_row_instead_of_failing() {
    let table = two_column_table();
    // col1 holds integers; a string operand can never match them.
    let filter = parse_filter_query(r#"PROJECT col1 FILTER col1 = "value1""#).unwrap();

    let rows: Vec<Row> = table.apply_filter(&filter).collect_rows();
    assert_eq!(rows.len(), 0);
}

#[test]
fn projection_keeps_unfiltered_columns_that_are_named() {
    let table = two_column_table();
    let filter = parse_filter_query("PROJECT col2 FILTER col1 = 2").unwrap();

    let rows: Vec<Row> = table.apply_filter(&filter).collect_rows();
    assert_eq!(rows.len(), 1);
    assert_eq!(rows[0].len(), 1);
    assert_eq!(
        rows[0].get("col2").unwrap(),
        &ColumnValue::String(StringColumnType("value2".to_string()))
    );
}
