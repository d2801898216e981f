use table_query::csv_table::CsvTable;
use table_query::filter::{
    ApplyTableFilterByValue, FilterByValue, FilterColumns, Operation, Row,
};
use table_query::table::{AsTable, ColumnType, ColumnValue, IntegerColumnType, StringColumnType};

fn create_csv_table() -> CsvTable {
    let data = vec![
        ("col1", ColumnValue::Integer(IntegerColumnType(1))),
        (
            "col2",
            ColumnValue::String(StringColumnType("value1".to_string())),
        ),
        ("col1", ColumnValue::Integer(IntegerColumnType(2))),
        (
            "col2",
            ColumnValue::String(StringColumnType("value2".to_string())),
        ),
    ];

    let mut table = CsvTable::new();
    for (col_name, value) in data {
        table.push_value(col_name, value);
    }

    table
}

#[test]
fn create_table() {
    let table = create_csv_table();
    assert_eq!(table.get_name(), "CSV Table (in-memory)");

    let columns: Vec<(String, Vec<ColumnValue>)> = table.get_columns();
    assert_eq!(columns.len(), 2);
    assert_eq!(columns[0].0, "col1");
    assert_eq!(columns[0].1.len(), 2);
    assert_eq!(columns[0].1[0].get_type(), ColumnType::Integer);
    assert_eq!(columns[0].1[1].get_type(), ColumnType::Integer);
    assert_eq!(columns[1].0, "col2");
    assert_eq!(columns[1].1.len(), 2);
    assert_eq!(columns[1].1[0].get_type(), ColumnType::String);
    assert_eq!(columns[1].1[1].get_type(), ColumnType::String);

    let column_names: Vec<String> = table.get_column_names();
    assert_eq!(column_names.len(), 2);
    assert_eq!(column_names[0], "col1");
    assert_eq!(column_names[1], "col2");
}

#[test]
fn get_rows() {
    let table = create_csv_table();

    let rows: Vec<Row> = table.get_rows();
    assert_eq!(rows.len(), 2);
    assert_eq!(rows[0].len(), 2);
    assert_eq!(rows[0].get("col1").unwrap().get_type(), ColumnType::Integer);
    assert_eq!(rows[0].get("col1").unwrap().as_string(), None);
    assert_eq!(rows[0].get("col2").unwrap().get_type(), ColumnType::String);
    assert_eq!(
        rows[0].get("col2").unwrap().as_string(),
        Some(&StringColumnType("value1".to_string()))
    );

    assert_eq!(rows[1].len(), 2);
    assert_eq!(rows[1].get("col1").unwrap().get_type(), ColumnType::Integer);
    assert_eq!(rows[1].get("col1").unwrap().as_string(), None);
    assert_eq!(rows[1].get("col2").unwrap().get_type(), ColumnType::String);
    assert_eq!(
        rows[1].get("col2").unwrap().as_string(),
        Some(&StringColumnType("value2".to_string()))
    );
}

#[test]
fn filter() {
    let table = create_csv_table();

    let filter_columns = FilterColumns {
        output_columns: vec!["col1".to_string()],
        filters: vec![(
            "col2".to_string(),
            FilterByValue {
                operation: Operation::Equal,
                value: ColumnValue::String(StringColumnType("value1".to_string())),
            },
        )],
    };

    let filtered_iter = table.apply_filter(&filter_columns);
    let filtered_rows: Vec<Row> = filtered_iter.collect_rows();

    assert_eq!(filtered_rows.len(), 1);
    assert_eq!(filtered_rows[0].len(), 1);
    assert_eq!(
        filtered_rows[0].get("col1").unwrap().get_type(),
        ColumnType::Integer
    );
    assert_eq!(filtered_rows[0].get("col1").unwrap().as_string(), None);
}

#[test]
fn from_records_builds_column_major_table() {
    let headers = vec!["a".to_string(), "b".to_string()];
    let records = vec![
        vec!["1".to_string(), "x".to_string()],
        vec!["2".to_string(), "y".to_string()],
    ];
    let table = CsvTable::from_records(&headers, &records);

    let columns = table.get_columns();
    assert_eq!(columns.len(), 2);
    assert_eq!(columns[0].0, "a");
    assert_eq!(
        columns[0].1,
        vec![
            ColumnValue::Integer(IntegerColumnType(1)),
            ColumnValue::Integer(IntegerColumnType(2)),
        ]
    );
    assert_eq!(columns[1].0, "b");
    assert_eq!(
        columns[1].1,
        vec![
            ColumnValue::String(StringColumnType("x".to_string())),
            ColumnValue::String(StringColumnType("y".to_string())),
        ]
    );
}

#[test]
fn shorter_columns_omit_cells_from_later_rows() {
    let mut table = CsvTable::new();
    table.push_value("a", ColumnValue::Integer(IntegerColumnType(1)));
    table.push_value("a", ColumnValue::Integer(IntegerColumnType(2)));
    table.push_value("b", ColumnValue::Integer(IntegerColumnType(10)));

    let rows = table.get_rows();
    assert_eq!(rows.len(), 2);
    assert_eq!(rows[0].len(), 2);
    assert_eq!(rows[1].len(), 1);
    assert_eq!(rows[1].get("b"), None);
}
