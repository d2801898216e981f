//! The in-memory column-major table that a CSV file is loaded into.

use vstd::prelude::*;
use vstd::string::StrSliceExecFns;
use vstd::string::StringExecFns;

use crate::filter::{
    cells_view, key_index, lemma_upsert, rows_view, seq_has_key, unique_keys, upsert,
    ApplyTableFilterByValue, FilterColumns, FilterQueryIterator, Row,
};
use crate::table::{
    column_names, columns_view, table_num_rows, table_row, table_rows, value_of_text, values_view,
    AsTable, ColumnValue, IntegerColumnType, TableView, ValueView,
};
use crate::text::{str_eq_exec, strings_view};

verus! {

/// An in-memory table: one growable sequence of values per column name,
/// in insertion order.
#[derive(Debug)]
pub struct CsvTable {
    /// The column-major storage: each column name with its values.
    pub data: Vec<(String, Vec<ColumnValue>)>,
}

/// Appending one value to a column: the value joins the column that holds
/// the name, or opens a new column at the end.
pub open spec fn push_value_spec(cols: TableView, name: Seq<char>, v: ValueView) -> TableView {
    if seq_has_key(cols, name) {
        upsert(cols, name, cols[key_index(cols, name)].1.push(v))
    } else {
        upsert(cols, name, seq![v])
    }
}

/// The mathematical content of a list of records.
pub open spec fn records_view(rs: Seq<Vec<String>>) -> Seq<Seq<Seq<char>>> {
    rs.map_values(|v: Vec<String>| strings_view(v@))
}

/// The table after the first `upto` cells of one record have been added.
pub open spec fn add_cells_spec(
    cols: TableView,
    headers: Seq<Seq<char>>,
    record: Seq<Seq<char>>,
    upto: int,
) -> TableView
    decreases upto,
{
    if upto <= 0 {
        cols
    } else {
        push_value_spec(
            add_cells_spec(cols, headers, record, upto - 1),
            headers[upto - 1],
            value_of_text(record[upto - 1]),
        )
    }
}

/// The table after the first `upto` records have been added.
pub open spec fn add_records_spec(
    headers: Seq<Seq<char>>,
    records: Seq<Seq<Seq<char>>>,
    upto: int,
) -> TableView
    decreases upto,
{
    if upto <= 0 {
        Seq::empty()
    } else {
        add_cells_spec(
            add_records_spec(headers, records, upto - 1),
            headers,
            records[upto - 1],
            records[upto - 1].len() as int,
        )
    }
}

/// The table built from a header row and the data records: each record's
/// cells parsed and appended to the column its header names.
pub open spec fn from_records_spec(
    headers: Seq<Seq<char>>,
    records: Seq<Seq<Seq<char>>>,
) -> TableView {
    add_records_spec(headers, records, records.len() as int)
}

impl CsvTable {
    /// No column name occurs twice.
    pub open spec fn wf(&self) -> bool {
        unique_keys(self.table_view())
    }

    /// An empty table.
    pub fn new() -> (r: CsvTable)
        ensures
            r.wf(),
            r.table_view() == Seq::<(Seq<char>, Seq<ValueView>)>::empty(),
    {
        let r = CsvTable { data: Vec::new() };
        proof {
            assert(r.table_view() =~= Seq::<(Seq<char>, Seq<ValueView>)>::empty());
        }
        r
    }

    /// Appends one value to the named column, opening the column if the
    /// table does not hold it yet.
    #[verifier::loop_isolation(false)]
    pub fn push_value(&mut self, name: &str, value: ColumnValue)
        requires
            old(self).wf(),
        ensures
            final(self).wf(),
            final(self).table_view() == push_value_spec(old(self).table_view(), name@, value@),
    {
        let ghost cols = self.table_view();
        let n: usize = self.data.len();
        let mut i: usize = 0;
        while i < n
            invariant
                0 <= i <= n,
                n == self.data@.len(),
                *self == *old(self),
                forall|j: int| 0 <= j < i ==> (#[trigger] cols[j]).0 != name@,
            decreases n - i,
        {
            if str_eq_exec(self.data[i].0.as_str(), name) {
                proof {
                    assert(cols[i as int].0 == name@);
                    assert(seq_has_key(cols, name@));
                    let j = key_index(cols, name@);
                    if j != i as int {
                        if j < i as int {
                            assert(cols[j].0 != cols[i as int].0);
                        } else {
                            assert(cols[i as int].0 != cols[j].0);
                        }
                    }
                    assert(key_index(cols, name@) == i as int);
                    lemma_upsert(cols, name@, cols[i as int].1.push(value@));
                }
                let mut entry: (String, Vec<ColumnValue>) = self.data.remove(i);
                entry.1.push(value);
                self.data.insert(i, entry);
                proof {
                    assert(values_view(entry.1@) =~= cols[i as int].1.push(value@));
                    assert(self.table_view() =~= cols.update(
                        i as int,
                        (name@, cols[i as int].1.push(value@)),
                    ));
                    assert((name@, cols[i as int].1.push(value@)) == (
                        cols[i as int].0,
                        cols[i as int].1.push(value@),
                    ));
                }
                return ;
            }
            i = i + 1;
        }
        proof {
            assert(!seq_has_key(cols, name@)) by {
                if seq_has_key(cols, name@) {
                    let j = choose|j: int| 0 <= j < cols.len() && (#[trigger] cols[j]).0 == name@;
                    assert(cols[j].0 != name@);
                }
            }
            lemma_upsert(cols, name@, seq![value@]);
        }
        let mut vs: Vec<ColumnValue> = Vec::new();
        vs.push(value);
        proof {
            assert(values_view(vs@) =~= seq![value@]);
        }
        self.data.push((name.to_owned(), vs));
        proof {
            assert(self.table_view() =~= cols.push((name@, seq![value@])));
        }
    }

    /// Builds the table from a header row and the data records: each cell
    /// parsed into a value and appended to the column its header names.
    #[verifier::loop_isolation(false)]
    pub fn from_records(headers: &Vec<String>, records: &Vec<Vec<String>>) -> (r: CsvTable)
        requires
            forall|k: int|
                0 <= k < records@.len() ==> (#[trigger] records@[k])@.len() <= headers@.len(),
        ensures
            r.wf(),
            r.table_view() == from_records_spec(strings_view(headers@), records_view(records@)),
    {
        let ghost hs = strings_view(headers@);
        let ghost rs = records_view(records@);
        let mut table: CsvTable = CsvTable::new();
        let mut r_i: usize = 0;
        while r_i < records.len()
            invariant
                0 <= r_i <= records@.len(),
                table.wf(),
                table.table_view() == add_records_spec(hs, rs, r_i as int),
            decreases records@.len() - r_i,
        {
            let record: &Vec<String> = &records[r_i];
            let mut c: usize = 0;
            while c < record.len()
                invariant
                    0 <= c <= record@.len(),
                    r_i < records@.len(),
                    record == &records@[r_i as int],
                    table.wf(),
                    table.table_view() == add_cells_spec(
                        add_records_spec(hs, rs, r_i as int),
                        hs,
                        rs[r_i as int],
                        c as int,
                    ),
                decreases record@.len() - c,
            {
                let cell: &String = &record[c];
                // Parsing a value never fails: text that is no integer
                // stays a string, so the error arm is unreachable.
                let v: ColumnValue = match ColumnValue::from_str(cell.as_str()) {
                    Ok(v) => v,
                    Err(_) => {
                        proof {
                            assert(false);
                        }
                        ColumnValue::Integer(IntegerColumnType(0))
                    },
                };
                proof {
                    assert(rs[r_i as int][c as int] == cell@);
                    assert(hs[c as int] == headers@[c as int]@);
                }
                table.push_value(headers[c].as_str(), v);
                c = c + 1;
            }
            proof {
                assert(rs[r_i as int].len() == record@.len());
            }
            r_i = r_i + 1;
        }
        table
    }
}

fn dup_values(vals: &Vec<ColumnValue>) -> (r: Vec<ColumnValue>)
    ensures
        r@ == vals@,
{
    let mut r: Vec<ColumnValue> = Vec::new();
    let mut i: usize = 0;
    while i < vals.len()
        invariant
            0 <= i <= vals@.len(),
            r@.len() == i,
            forall|k: int| 0 <= k < i ==> r@[k] == vals@[k],
        decreases vals@.len() - i,
    {
        r.push(vals[i].duplicate());
        i = i + 1;
    }
    proof {
        assert(r@ =~= vals@);
    }
    r
}

impl AsTable for CsvTable {
    open spec fn table_view(&self) -> TableView {
        columns_view(self.data@)
    }

    open spec fn table_name(&self) -> Seq<char> {
        "CSV Table (in-memory)"@
    }

    fn get_name(&self) -> (r: &str) {
        "CSV Table (in-memory)"
    }

    fn get_columns(&self) -> (r: Vec<(String, Vec<ColumnValue>)>) {
        let mut r: Vec<(String, Vec<ColumnValue>)> = Vec::new();
        let mut i: usize = 0;
        while i < self.data.len()
            invariant
                0 <= i <= self.data@.len(),
                r@.len() == i,
                forall|k: int|
                    0 <= k < i ==> (#[trigger] r@[k]).0 == self.data@[k].0 && r@[k].1@
                        == self.data@[k].1@,
            decreases self.data@.len() - i,
        {
            let entry = &self.data[i];
            r.push((entry.0.clone(), dup_values(&entry.1)));
            i = i + 1;
        }
        proof {
            assert(columns_view(r@) =~= columns_view(self.data@));
        }
        r
    }

    fn get_column_names(&self) -> (r: Vec<String>) {
        let mut r: Vec<String> = Vec::new();
        let mut i: usize = 0;
        while i < self.data.len()
            invariant
                0 <= i <= self.data@.len(),
                r@.len() == i,
                forall|k: int| 0 <= k < i ==> (#[trigger] r@[k])@ == self.data@[k].0@,
            decreases self.data@.len() - i,
        {
            r.push(self.data[i].0.clone());
            i = i + 1;
        }
        proof {
            assert(strings_view(r@) =~= column_names(self.table_view()));
        }
        r
    }

    #[verifier::loop_isolation(false)]
    fn get_rows(&self) -> (r: Vec<Row>) {
        let num_rows: usize = if self.data.len() == 0 {
            0
        } else {
            self.data[0].1.len()
        };
        proof {
            assert(num_rows as int == table_num_rows(self.table_view()));
        }
        let mut rows: Vec<Row> = Vec::new();
        let mut i: usize = 0;
        while i < num_rows
            invariant
                0 <= i <= num_rows,
                rows@.len() == i,
                forall|k: int|
                    0 <= k < i ==> (#[trigger] rows@[k])@ == table_row(self.table_view(), k),
            decreases num_rows - i,
        {
            let mut row: Row = Row::new();
            let mut j: usize = 0;
            while j < self.data.len()
                invariant
                    0 <= j <= self.data@.len(),
                    row@ == table_row(columns_view(self.data@).take(j as int), i as int),
                decreases self.data@.len() - j,
            {
                proof {
                    assert(columns_view(self.data@).take(j + 1).drop_last() =~= columns_view(
                        self.data@,
                    ).take(j as int));
                    assert(columns_view(self.data@).take(j + 1).last() == (
                        self.data@[j as int].0@,
                        values_view(self.data@[j as int].1@),
                    ));
                }
                let col_name: &String = &self.data[j].0;
                let col_vals: &Vec<ColumnValue> = &self.data[j].1;
                if i < col_vals.len() {
                    let ghost rcells = row.cells@;
                    row.cells.push((col_name.clone(), col_vals[i].duplicate()));
                    proof {
                        assert(cells_view(row.cells@) =~= cells_view(rcells).push((
                            self.data@[j as int].0@,
                            self.data@[j as int].1@[i as int]@,
                        )));
                    }
                }
                j = j + 1;
            }
            proof {
                assert(columns_view(self.data@).take(self.data@.len() as int) =~= columns_view(
                    self.data@,
                ));
            }
            rows.push(row);
            i = i + 1;
        }
        proof {
            assert(rows_view(rows@) =~= table_rows(self.table_view()));
        }
        rows
    }
}

impl ApplyTableFilterByValue for CsvTable {
    fn apply_filter(&self, filter: &FilterColumns) -> (r: FilterQueryIterator) {
        FilterQueryIterator::new(self.get_rows(), filter.duplicate())
    }
}

} // verus!
