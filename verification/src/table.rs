//! The typed column-value model and the abstract table interface.

use vstd::prelude::*;
use vstd::string::StrSliceExecFns;
use vstd::string::StringExecFns;

use crate::error::Error;
use crate::filter::{
    eval_filter, rows_view, ApplyColumnFilterByValue, FilterByValue, FilterView, Row, RowView,
};
use crate::text::{
    decimal_i64, i64_literal_val, is_i64_literal, parse_i64, render_i64, str_lt_exec, strings_view,
};

verus! {

/// The mathematical content of a single cell: an integer or a text.
pub enum ValueView {
    Int(int),
    Str(Seq<char>),
}

/// The integers in the data table.
#[derive(Debug, Copy, Clone, PartialEq, Eq, PartialOrd, Ord, Hash)]
pub struct IntegerColumnType(pub i64);

/// The strings in the data table.
#[derive(Debug, Clone, PartialEq, Eq, PartialOrd, Ord, Hash)]
pub struct StringColumnType(pub String);

/// Represents the kind of a column value.
#[derive(Debug, Copy, Clone, PartialEq, Eq, PartialOrd, Ord, Hash, Structural)]
pub enum ColumnType {
    /// The cell is an integer.
    Integer,
    /// The cell is a string.
    String,
}

/// A single column value.
#[derive(Debug, Clone, PartialEq, Eq, PartialOrd, Ord, Hash)]
pub enum ColumnValue {
    /// The cell contains an integer.
    Integer(IntegerColumnType),
    /// The cell contains a string.
    String(StringColumnType),
}

impl View for ColumnValue {
    type V = ValueView;

    open spec fn view(&self) -> ValueView {
        match self {
            ColumnValue::Integer(v) => ValueView::Int(v.0 as int),
            ColumnValue::String(s) => ValueView::Str(s.0@),
        }
    }
}

/// How raw text becomes a value: a full `i64` literal becomes an integer,
/// anything else stays a string.
pub open spec fn value_of_text(s: Seq<char>) -> ValueView {
    if is_i64_literal(s) {
        ValueView::Int(i64_literal_val(s))
    } else {
        ValueView::Str(s)
    }
}

impl StringColumnType {
    /// Makes an owned copy of the value.
    pub fn duplicate(&self) -> (r: StringColumnType)
        ensures
            r == *self,
    {
        StringColumnType(self.0.clone())
    }

    /// Parses a string value from text; this never fails.
    pub fn from_str(s: &str) -> (r: Result<StringColumnType, Error>)
        ensures
            r matches Ok(v) && v.0@ == s@,
    {
        Ok(StringColumnType(s.to_owned()))
    }
}

impl IntegerColumnType {
    /// Parses an integer value from a full decimal literal.
    pub fn from_str(s: &str) -> (r: Result<IntegerColumnType, Error>)
        ensures
            is_i64_literal(s@) ==> (r matches Ok(v) && v.0 as int == i64_literal_val(s@)),
            !is_i64_literal(s@) ==> (r matches Err(e) && e matches Error::ValueParse(_)),
    {
        match parse_i64(s) {
            Some(v) => Ok(IntegerColumnType(v)),
            None => Err(
                Error::ValueParse(
                    String::from_str("the text is not a decimal integer").concat(s),
                ),
            ),
        }
    }
}

impl ColumnValue {
    /// Returns the value as an integer if it is an integer.
    pub fn as_integer(&self) -> (r: Option<IntegerColumnType>)
        ensures
            r == match *self {
                ColumnValue::Integer(v) => Some(v),
                ColumnValue::String(_) => None::<IntegerColumnType>,
            },
    {
        match self {
            ColumnValue::Integer(value) => Some(*value),
            _ => None,
        }
    }

    /// Returns the value as a string if it is a string.
    pub fn as_string(&self) -> (r: Option<&StringColumnType>)
        ensures
            match self {
                ColumnValue::String(s) => r matches Some(x) && x == s,
                ColumnValue::Integer(_) => r is None,
            },
    {
        match self {
            ColumnValue::String(value) => Some(value),
            _ => None,
        }
    }

    /// Returns the kind of the value.
    pub fn get_type(&self) -> (r: ColumnType)
        ensures
            r == match *self {
                ColumnValue::Integer(_) => ColumnType::Integer,
                ColumnValue::String(_) => ColumnType::String,
            },
    {
        match self {
            ColumnValue::Integer(_) => ColumnType::Integer,
            ColumnValue::String(_) => ColumnType::String,
        }
    }

    /// Parses a value from raw text; this never fails. A full decimal `i64`
    /// literal becomes an integer, anything else stays a string.
    pub fn from_str(s: &str) -> (r: Result<ColumnValue, Error>)
        ensures
            r matches Ok(v) && v@ == value_of_text(s@),
    {
        match parse_i64(s) {
            Some(v) => Ok(ColumnValue::Integer(IntegerColumnType(v))),
            None => Ok(ColumnValue::String(StringColumnType(s.to_owned()))),
        }
    }

    /// Makes an owned copy of the value.
    pub fn duplicate(&self) -> (r: ColumnValue)
        ensures
            r == *self,
    {
        match self {
            ColumnValue::Integer(v) => ColumnValue::Integer(*v),
            ColumnValue::String(s) => ColumnValue::String(s.duplicate()),
        }
    }

    /// How a value renders: integers in their decimal form, strings in their
    /// debug-quoted form (quotes included).
    pub open spec fn render_spec(&self) -> Seq<char> {
        match self@ {
            ValueView::Int(v) => decimal_i64(v),
            ValueView::Str(s) => debug_quoted(s),
        }
    }

    /// Renders the value for query-tool output.
    pub fn render(&self) -> (r: String)
        ensures
            r@ == self.render_spec(),
    {
        match self {
            ColumnValue::Integer(v) => render_i64(v.0),
            ColumnValue::String(s) => debug_quote(&s.0),
        }
    }
}

/// The characters of the debug-quoted form of a text: surrounding double
/// quotes with the escaped characters between them.
pub uninterp spec fn debug_quoted(s: Seq<char>) -> Seq<char>;

/// Relies on the `Debug` formatting of `String`: the debug-quoted form is a
/// function of the characters alone.
#[verifier::external_body]
fn debug_quote(s: &String) -> (r: String)
    ensures
        r@ == debug_quoted(s@),
{
    format!("{:?}", s)
}

impl ApplyColumnFilterByValue for IntegerColumnType {
    open spec fn filter_eval(&self, f: FilterView) -> Option<bool> {
        eval_filter(ValueView::Int(self.0 as int), f)
    }

    fn apply_filter_by_value(&self, filter: &FilterByValue) -> (r: Result<bool, Error>) {
        match &filter.value {
            ColumnValue::Integer(value) => {
                let b: bool = match filter.operation {
                    crate::filter::Operation::Equal => self.0 == value.0,
                    crate::filter::Operation::GreaterThan => self.0 > value.0,
                    crate::filter::Operation::LessThan => self.0 < value.0,
                };
                Ok(b)
            },
            _ => Err(Error::Filter(crate::error::FilterError::InvalidFilterValueType)),
        }
    }
}

impl ApplyColumnFilterByValue for StringColumnType {
    open spec fn filter_eval(&self, f: FilterView) -> Option<bool> {
        eval_filter(ValueView::Str(self.0@), f)
    }

    fn apply_filter_by_value(&self, filter: &FilterByValue) -> (r: Result<bool, Error>) {
        match &filter.value {
            ColumnValue::String(value) => {
                let b: bool = match filter.operation {
                    crate::filter::Operation::Equal => self.0 == value.0,
                    crate::filter::Operation::GreaterThan => str_lt_exec(
                        value.0.as_str(),
                        self.0.as_str(),
                    ),
                    crate::filter::Operation::LessThan => str_lt_exec(
                        self.0.as_str(),
                        value.0.as_str(),
                    ),
                };
                Ok(b)
            },
            _ => Err(Error::Filter(crate::error::FilterError::InvalidFilterValueType)),
        }
    }
}

impl ApplyColumnFilterByValue for ColumnValue {
    open spec fn filter_eval(&self, f: FilterView) -> Option<bool> {
        eval_filter(self@, f)
    }

    fn apply_filter_by_value(&self, filter: &FilterByValue) -> (r: Result<bool, Error>) {
        match self {
            ColumnValue::Integer(value) => value.apply_filter_by_value(filter),
            ColumnValue::String(value) => value.apply_filter_by_value(filter),
        }
    }
}

/// The mathematical content of a column-major table: the columns in order,
/// each a name with its values.
pub type TableView = Seq<(Seq<char>, Seq<ValueView>)>;

/// The mathematical content of a sequence of values.
pub open spec fn values_view(vs: Seq<ColumnValue>) -> Seq<ValueView> {
    vs.map_values(|v: ColumnValue| v@)
}

/// The mathematical content of column-major storage.
pub open spec fn columns_view(s: Seq<(String, Vec<ColumnValue>)>) -> TableView {
    s.map_values(|p: (String, Vec<ColumnValue>)| (p.0@, values_view(p.1@)))
}

/// The names of the columns, in column order.
pub open spec fn column_names(t: TableView) -> Seq<Seq<char>> {
    t.map_values(|c: (Seq<char>, Seq<ValueView>)| c.0)
}

/// The row at a positional index: one cell per column that is long enough,
/// in column order; shorter columns simply omit that column from the row.
pub open spec fn table_row(cols: TableView, i: int) -> RowView
    decreases cols.len(),
{
    if cols.len() == 0 {
        Seq::empty()
    } else {
        let rest = table_row(cols.drop_last(), i);
        if 0 <= i < cols.last().1.len() {
            rest.push((cols.last().0, cols.last().1[i]))
        } else {
            rest
        }
    }
}

/// The number of rows: the first column's length.
pub open spec fn table_num_rows(cols: TableView) -> int {
    if cols.len() == 0 {
        0
    } else {
        cols.first().1.len() as int
    }
}

/// All the rows of the table, in positional index order.
pub open spec fn table_rows(cols: TableView) -> Seq<RowView> {
    Seq::new(table_num_rows(cols) as nat, |i: int| table_row(cols, i))
}

/// A trait for representing a table.
pub trait AsTable {
    /// The mathematical content of the table.
    spec fn table_view(&self) -> TableView;

    /// The diagnostic name of the table.
    spec fn table_name(&self) -> Seq<char>;

    /// Returns the name of the table.
    fn get_name(&self) -> (r: &str)
        ensures
            r@ == self.table_name(),
    ;

    /// Returns the columns of the table: each column name with its values.
    fn get_columns(&self) -> (r: Vec<(String, Vec<ColumnValue>)>)
        ensures
            columns_view(r@) == self.table_view(),
    ;

    /// Returns the names of the columns in the table.
    fn get_column_names(&self) -> (r: Vec<String>)
        ensures
            strings_view(r@) == column_names(self.table_view()),
    ;

    /// Returns the rows of the table, materialized in positional index order.
    fn get_rows(&self) -> (r: Vec<Row>)
        ensures
            rows_view(r@) == table_rows(self.table_view()),
    ;
}

} // verus!
