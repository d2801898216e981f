//! The filter operations, the parsed filter specification, and the
//! filter/projection engine.

use vstd::prelude::*;
use vstd::string::StrSliceExecFns;
use vstd::string::StringExecFns;

use crate::error::{Error, FilterError};
use crate::table::{ColumnValue, ValueView};
use crate::text::{str_eq_exec, str_lt, strings_view};

verus! {

/// The filter operations which can be performed in the engine.
#[derive(Debug, Copy, Clone, PartialEq, PartialOrd, Eq, Ord, Hash, Structural)]
pub enum Operation {
    /// To keep the values which are equal to the operand.
    Equal,
    /// To keep the values which are greater than the operand.
    GreaterThan,
    /// To keep the values which are less than the operand.
    LessThan,
}

impl Operation {
    /// The one-character textual symbol of the operation.
    pub open spec fn symbol_spec(&self) -> Seq<char> {
        match self {
            Operation::Equal => seq!['='],
            Operation::GreaterThan => seq!['>'],
            Operation::LessThan => seq!['<'],
        }
    }

    /// Returns the string representation of the filter operation.
    pub fn as_str(&self) -> (r: &'static str)
        ensures
            r@ == self.symbol_spec(),
    {
        match self {
            Operation::Equal => {
                proof {
                    reveal_strlit("=");
                    assert("="@ =~= seq!['=']);
                }
                "="
            },
            Operation::GreaterThan => {
                proof {
                    reveal_strlit(">");
                    assert(">"@ =~= seq!['>']);
                }
                ">"
            },
            Operation::LessThan => {
                proof {
                    reveal_strlit("<");
                    assert("<"@ =~= seq!['<']);
                }
                "<"
            },
        }
    }

    /// Parses an operation from its textual symbol; any other text fails
    /// with a parse error.
    pub fn from_str(s: &str) -> (r: Result<Operation, Error>)
        ensures
            s@ == seq!['='] ==> r == Ok::<Operation, Error>(Operation::Equal),
            s@ == seq!['>'] ==> r == Ok::<Operation, Error>(Operation::GreaterThan),
            s@ == seq!['<'] ==> r == Ok::<Operation, Error>(Operation::LessThan),
            !(s@ == seq!['='] || s@ == seq!['>'] || s@ == seq!['<']) ==> (r matches Err(e)
                && e matches Error::Filter(FilterError::Parse(_))),
    {
        let n: usize = s.unicode_len();
        if n == 1 {
            let c: char = s.get_char(0);
            if c == '=' {
                proof {
                    assert(s@ =~= seq!['=']);
                }
                return Ok(Operation::Equal);
            }
            if c == '>' {
                proof {
                    assert(s@ =~= seq!['>']);
                }
                return Ok(Operation::GreaterThan);
            }
            if c == '<' {
                proof {
                    assert(s@ =~= seq!['<']);
                }
                return Ok(Operation::LessThan);
            }
        }
        Err(
            Error::Filter(
                FilterError::Parse(String::from_str("Invalid filter operation: ").concat(s)),
            ),
        )
    }
}

/// The mathematical content of a single-value filter: the operation and the
/// operand it compares against.
pub struct FilterView {
    pub operation: Operation,
    pub value: ValueView,
}

/// What an operation says of two integers.
pub open spec fn eval_op_int(op: Operation, a: int, b: int) -> bool {
    match op {
        Operation::Equal => a == b,
        Operation::GreaterThan => a > b,
        Operation::LessThan => a < b,
    }
}

/// What an operation says of two texts, under lexicographic order.
pub open spec fn eval_op_str(op: Operation, a: Seq<char>, b: Seq<char>) -> bool {
    match op {
        Operation::Equal => a == b,
        Operation::GreaterThan => str_lt(b, a),
        Operation::LessThan => str_lt(a, b),
    }
}

/// What a filter says of a value: integers compare only against integer
/// operands, strings only against string operands; a kind mismatch yields
/// nothing at all, never a silent match or mismatch.
pub open spec fn eval_filter(v: ValueView, f: FilterView) -> Option<bool> {
    match v {
        ValueView::Int(a) => match f.value {
            ValueView::Int(b) => Some(eval_op_int(f.operation, a, b)),
            ValueView::Str(_) => None,
        },
        ValueView::Str(a) => match f.value {
            ValueView::Str(b) => Some(eval_op_str(f.operation, a, b)),
            ValueView::Int(_) => None,
        },
    }
}

/// Operator semantics over integers: `Equal` holds exactly when the two are
/// equal, `GreaterThan` exactly when the value exceeds the operand, and
/// `LessThan` exactly when it falls below it.
pub proof fn lemma_operator_semantics_int(op: Operation, a: int, b: int)
    ensures
        eval_filter(ValueView::Int(a), FilterView { operation: op, value: ValueView::Int(b) })
            == Some(
            match op {
                Operation::Equal => a == b,
                Operation::GreaterThan => a > b,
                Operation::LessThan => a < b,
            },
        ),
{
}

/// Operator semantics over strings: the same three operations, decided by
/// lexicographic order.
pub proof fn lemma_operator_semantics_str(op: Operation, a: Seq<char>, b: Seq<char>)
    ensures
        eval_filter(ValueView::Str(a), FilterView { operation: op, value: ValueView::Str(b) })
            == Some(
            match op {
                Operation::Equal => a == b,
                Operation::GreaterThan => str_lt(b, a),
                Operation::LessThan => str_lt(a, b),
            },
        ),
{
}

/// Kind mismatch: an integer value against a string operand, or a string
/// value against an integer operand, never evaluates to a match or a
/// mismatch; it yields nothing, whatever the operation.
pub proof fn lemma_kind_mismatch(op: Operation, a: int, s: Seq<char>)
    ensures
        eval_filter(ValueView::Int(a), FilterView { operation: op, value: ValueView::Str(s) })
            is None,
        eval_filter(ValueView::Str(s), FilterView { operation: op, value: ValueView::Int(a) })
            is None,
{
}

/// A trait for applying a filter to a column value.
pub trait ApplyColumnFilterByValue {
    /// What the filter says of this value.
    spec fn filter_eval(&self, f: FilterView) -> Option<bool>;

    /// Applies the filter to the column value. Returns `true` exactly when
    /// the filter matches the value, and fails exactly on a kind mismatch.
    fn apply_filter_by_value(&self, filter: &FilterByValue) -> (r: Result<bool, Error>)
        ensures
            match self.filter_eval(filter@) {
                Some(b) => r == Ok::<bool, Error>(b),
                None => r == Err::<bool, Error>(
                    Error::Filter(FilterError::InvalidFilterValueType),
                ),
            },
    ;
}

/// Represents the filter for a single value.
#[derive(Debug, Clone, PartialEq)]
pub struct FilterByValue {
    /// The filter operation to perform.
    pub operation: Operation,
    /// The value to compare against.
    pub value: ColumnValue,
}

impl View for FilterByValue {
    type V = FilterView;

    open spec fn view(&self) -> FilterView {
        FilterView { operation: self.operation, value: self.value@ }
    }
}

impl FilterByValue {
    /// Makes an owned copy of the filter.
    pub fn duplicate(&self) -> (r: FilterByValue)
        ensures
            r@ == self@,
    {
        FilterByValue { operation: self.operation, value: self.value.duplicate() }
    }
}

/// An association list holds this key.
pub open spec fn seq_has_key<V>(s: Seq<(Seq<char>, V)>, k: Seq<char>) -> bool {
    exists|i: int| 0 <= i < s.len() && (#[trigger] s[i]).0 == k
}

/// The position of this key in an association list.
pub open spec fn key_index<V>(s: Seq<(Seq<char>, V)>, k: Seq<char>) -> int {
    choose|i: int| 0 <= i < s.len() && (#[trigger] s[i]).0 == k
}

/// No key occurs twice.
pub open spec fn unique_keys<V>(s: Seq<(Seq<char>, V)>) -> bool {
    forall|i: int, j: int|
        0 <= i < j < s.len() ==> (#[trigger] s[i]).0 != (#[trigger] s[j]).0
}

/// The mapping an association list stands for: a later entry overrides an
/// earlier one with the same key.
pub open spec fn assoc_map<V>(entries: Seq<(Seq<char>, V)>) -> Map<Seq<char>, V>
    decreases entries.len(),
{
    if entries.len() == 0 {
        Map::empty()
    } else {
        assoc_map(entries.drop_last()).insert(entries.last().0, entries.last().1)
    }
}

/// Inserting with map semantics: replace the entry that holds the key, or
/// append a new entry at the end.
pub open spec fn upsert<V>(s: Seq<(Seq<char>, V)>, k: Seq<char>, v: V) -> Seq<(Seq<char>, V)> {
    if seq_has_key(s, k) {
        s.update(key_index(s, k), (k, v))
    } else {
        s.push((k, v))
    }
}

proof fn lemma_assoc_map_update<V>(s: Seq<(Seq<char>, V)>, i: int, v: V)
    requires
        0 <= i < s.len(),
        forall|j: int| 0 <= j < s.len() && j != i ==> (#[trigger] s[j]).0 != s[i].0,
    ensures
        assoc_map(s.update(i, (s[i].0, v))) == assoc_map(s).insert(s[i].0, v),
    decreases s.len(),
{
    let k = s[i].0;
    if i == s.len() - 1 {
        assert(s.update(i, (k, v)).drop_last() =~= s.drop_last());
        assert(assoc_map(s.drop_last()).insert(k, s.last().1).insert(k, v) =~= assoc_map(
            s.drop_last(),
        ).insert(k, v));
    } else {
        let s2 = s.drop_last();
        assert(s.update(i, (k, v)).drop_last() =~= s2.update(i, (k, v)));
        assert(s.update(i, (k, v)).last() == s.last());
        lemma_assoc_map_update(s2, i, v);
        assert(s.last().0 != k);
        assert(assoc_map(s2).insert(k, v).insert(s.last().0, s.last().1) =~= assoc_map(
            s2,
        ).insert(s.last().0, s.last().1).insert(k, v));
    }
}

/// What `upsert` does to the mapping, to the keys, and to uniqueness.
pub proof fn lemma_upsert<V>(s: Seq<(Seq<char>, V)>, k: Seq<char>, v: V)
    requires
        unique_keys(s),
    ensures
        assoc_map(upsert(s, k, v)) == assoc_map(s).insert(k, v),
        unique_keys(upsert(s, k, v)),
        forall|k2: Seq<char>|
            #[trigger] seq_has_key(upsert(s, k, v), k2) <==> (seq_has_key(s, k2) || k2 == k),
{
    let r = upsert(s, k, v);
    if seq_has_key(s, k) {
        let i = key_index(s, k);
        assert(0 <= i < s.len() && s[i].0 == k);
        assert forall|j: int| 0 <= j < s.len() && j != i implies (#[trigger] s[j]).0 != s[i].0 by {
            if j < i {
                assert(s[j].0 != s[i].0);
            } else {
                assert(s[i].0 != s[j].0);
            }
        }
        assert((k, v) == (s[i].0, v));
        lemma_assoc_map_update(s, i, v);
        assert forall|k2: Seq<char>| #[trigger] seq_has_key(r, k2) implies (seq_has_key(s, k2)
            || k2 == k) by {
            let j = choose|j: int| 0 <= j < r.len() && (#[trigger] r[j]).0 == k2;
            if j == i {
            } else {
                assert(s[j].0 == k2);
            }
        }
        assert forall|k2: Seq<char>| seq_has_key(s, k2) || k2 == k implies #[trigger] seq_has_key(
            r,
            k2,
        ) by {
            if k2 == k {
                assert(r[i].0 == k2);
            } else {
                let j = choose|j: int| 0 <= j < s.len() && (#[trigger] s[j]).0 == k2;
                assert(r[j].0 == k2);
            }
        }
    } else {
        assert(r.drop_last() =~= s);
        assert forall|k2: Seq<char>| #[trigger] seq_has_key(r, k2) implies (seq_has_key(s, k2)
            || k2 == k) by {
            let j = choose|j: int| 0 <= j < r.len() && (#[trigger] r[j]).0 == k2;
            if j < s.len() {
                assert(s[j].0 == k2);
            }
        }
        assert forall|k2: Seq<char>| seq_has_key(s, k2) || k2 == k implies #[trigger] seq_has_key(
            r,
            k2,
        ) by {
            if k2 == k {
                assert(r[s.len() as int].0 == k2);
            } else {
                let j = choose|j: int| 0 <= j < s.len() && (#[trigger] s[j]).0 == k2;
                assert(r[j].0 == k2);
            }
        }
        assert forall|i2: int, j2: int| 0 <= i2 < j2 < r.len() implies (#[trigger] r[i2]).0 != (
        #[trigger] r[j2]).0 by {
            if j2 == s.len() {
                assert(!seq_has_key(s, k));
                assert(r[i2].0 == s[i2].0);
                if r[i2].0 == k {
                    assert(seq_has_key(s, k)) by {
                        assert(s[i2].0 == k);
                    }
                }
            }
        }
    }
}

/// Folding a list of filter expressions into an association list, a later
/// expression on the same column overriding an earlier one.
pub open spec fn build_filters<V>(exprs: Seq<(Seq<char>, V)>) -> Seq<(Seq<char>, V)>
    decreases exprs.len(),
{
    if exprs.len() == 0 {
        Seq::empty()
    } else {
        upsert(build_filters(exprs.drop_last()), exprs.last().0, exprs.last().1)
    }
}

/// Grammar round-trip, the filters half: folding the filter expressions of a
/// query yields one entry per distinct filtered column, the mapping is the
/// last-wins mapping of the expressions themselves, and exactly the filtered
/// columns have an entry.
pub proof fn lemma_build_filters<V>(exprs: Seq<(Seq<char>, V)>)
    ensures
        unique_keys(build_filters(exprs)),
        assoc_map(build_filters(exprs)) == assoc_map(exprs),
        forall|k: Seq<char>|
            #[trigger] seq_has_key(build_filters(exprs), k) <==> seq_has_key(exprs, k),
    decreases exprs.len(),
{
    if exprs.len() == 0 {
        assert forall|k: Seq<char>| #[trigger] seq_has_key(exprs, k) implies false by {}
    } else {
        let prev = exprs.drop_last();
        lemma_build_filters(prev);
        lemma_upsert(build_filters(prev), exprs.last().0, exprs.last().1);
        assert forall|k: Seq<char>| #[trigger] seq_has_key(exprs, k) implies (seq_has_key(prev, k)
            || k == exprs.last().0) by {
            let j = choose|j: int| 0 <= j < exprs.len() && (#[trigger] exprs[j]).0 == k;
            if j < exprs.len() - 1 {
                assert(prev[j].0 == k);
            }
        }
        assert forall|k: Seq<char>| seq_has_key(prev, k) || k == exprs.last().0 implies #[trigger]
        seq_has_key(exprs, k) by {
            if k == exprs.last().0 {
                assert(exprs[exprs.len() - 1].0 == k);
            } else {
                let j = choose|j: int| 0 <= j < prev.len() && (#[trigger] prev[j]).0 == k;
                assert(exprs[j].0 == k);
            }
        }
    }
}

/// Represents the filter for one or more columns: the parsed query.
#[derive(Debug, Clone)]
pub struct FilterColumns {
    /// The columns to return (the projection).
    pub output_columns: Vec<String>,
    /// The predicates to apply: one filter per column name, a later insert
    /// overriding an earlier one.
    pub filters: Vec<(String, FilterByValue)>,
}

/// The mathematical content of a parsed query.
pub struct FilterColumnsView {
    pub output_columns: Seq<Seq<char>>,
    pub filters: Seq<(Seq<char>, FilterView)>,
}

/// The mathematical content of the filter entries.
pub open spec fn filters_entries_view(s: Seq<(String, FilterByValue)>) -> Seq<
    (Seq<char>, FilterView),
> {
    s.map_values(|p: (String, FilterByValue)| (p.0@, p.1@))
}

impl View for FilterColumns {
    type V = FilterColumnsView;

    open spec fn view(&self) -> FilterColumnsView {
        FilterColumnsView {
            output_columns: strings_view(self.output_columns@),
            filters: filters_entries_view(self.filters@),
        }
    }
}

fn get_filter_upto<'a>(
    entries: &'a Vec<(String, FilterByValue)>,
    k: usize,
    name: &str,
) -> (r: Option<&'a FilterByValue>)
    requires
        k <= entries@.len(),
    ensures
        ({
            let m = assoc_map(filters_entries_view(entries@.take(k as int)));
            match r {
                Some(f) => m.contains_key(name@) && m[name@] == f@,
                None => !m.contains_key(name@),
            }
        }),
    decreases k,
{
    if k == 0 {
        proof {
            assert(filters_entries_view(entries@.take(0)) =~= Seq::<(Seq<char>, FilterView)>::empty());
        }
        None
    } else {
        proof {
            assert(filters_entries_view(entries@.take(k as int)).drop_last() =~= filters_entries_view(
                entries@.take(k - 1),
            ));
            assert(filters_entries_view(entries@.take(k as int)).last() == (
                entries@[k - 1].0@,
                entries@[k - 1].1@,
            ));
        }
        if str_eq_exec(entries[k - 1].0.as_str(), name) {
            Some(&entries[k - 1].1)
        } else {
            get_filter_upto(entries, k - 1, name)
        }
    }
}

impl FilterColumns {
    /// The mapping from column name to its filter.
    pub open spec fn filters_map(&self) -> Map<Seq<char>, FilterView> {
        assoc_map(self@.filters)
    }

    /// No column occurs twice among the filter entries.
    pub open spec fn wf(&self) -> bool {
        unique_keys(self@.filters)
    }

    /// Looks up the filter of a column, the latest entry winning.
    pub fn get_filter(&self, name: &str) -> (r: Option<&FilterByValue>)
        ensures
            match r {
                Some(f) => self.filters_map().contains_key(name@) && self.filters_map()[name@]
                    == f@,
                None => !self.filters_map().contains_key(name@),
            },
    {
        proof {
            assert(self.filters@.take(self.filters@.len() as int) =~= self.filters@);
        }
        get_filter_upto(&self.filters, self.filters.len(), name)
    }

    /// Inserts a filter for a column, overriding an existing filter on the
    /// same column and keeping every other entry as it is.
    #[verifier::loop_isolation(false)]
    pub fn insert_filter(&mut self, name: String, filter: FilterByValue)
        requires
            old(self).wf(),
        ensures
            final(self).wf(),
            final(self).output_columns == old(self).output_columns,
            final(self)@.filters == upsert(old(self)@.filters, name@, filter@),
            final(self).filters_map() == old(self).filters_map().insert(name@, filter@),
    {
        proof {
            lemma_upsert(old(self)@.filters, name@, filter@);
        }
        let ghost ev = self@.filters;
        let n: usize = self.filters.len();
        let mut i: usize = 0;
        while i < n
            invariant
                0 <= i <= n,
                n == self.filters@.len(),
                *self == *old(self),
                ev == self@.filters,
                forall|j: int| 0 <= j < i ==> (#[trigger] ev[j]).0 != name@,
            decreases n - i,
        {
            if str_eq_exec(self.filters[i].0.as_str(), name.as_str()) {
                proof {
                    assert(ev[i as int].0 == name@);
                    assert(seq_has_key(ev, name@));
                    let j = key_index(ev, name@);
                    if j != i as int {
                        if j < i as int {
                            assert(ev[j].0 != ev[i as int].0);
                        } else {
                            assert(ev[i as int].0 != ev[j].0);
                        }
                    }
                    assert(key_index(ev, name@) == i as int);
                }
                self.filters.remove(i);
                self.filters.insert(i, (name, filter));
                proof {
                    assert(self@.filters =~= ev.update(i as int, (name@, filter@)));
                    assert((name@, filter@) == (ev[i as int].0, filter@));
                }
                return ;
            }
            i = i + 1;
        }
        proof {
            assert(!seq_has_key(ev, name@)) by {
                if seq_has_key(ev, name@) {
                    let j = choose|j: int| 0 <= j < ev.len() && (#[trigger] ev[j]).0 == name@;
                    assert(ev[j].0 != name@);
                }
            }
        }
        self.filters.push((name, filter));
        proof {
            assert(self@.filters =~= ev.push((name@, filter@)));
        }
    }

    /// Makes an owned copy of the parsed query.
    pub fn duplicate(&self) -> (r: FilterColumns)
        ensures
            r@ == self@,
    {
        let mut output_columns: Vec<String> = Vec::new();
        let mut i: usize = 0;
        while i < self.output_columns.len()
            invariant
                0 <= i <= self.output_columns@.len(),
                output_columns@.len() == i,
                forall|k: int| 0 <= k < i ==> output_columns@[k]@ == self.output_columns@[k]@,
            decreases self.output_columns@.len() - i,
        {
            output_columns.push(self.output_columns[i].clone());
            i = i + 1;
        }
        let mut filters: Vec<(String, FilterByValue)> = Vec::new();
        let mut j: usize = 0;
        while j < self.filters.len()
            invariant
                0 <= j <= self.filters@.len(),
                filters@.len() == j,
                forall|k: int|
                    0 <= k < j ==> (#[trigger] filters@[k]).0@ == self.filters@[k].0@ && filters@[
                        k
                    ].1@ == self.filters@[k].1@,
            decreases self.filters@.len() - j,
        {
            let entry = &self.filters[j];
            filters.push((entry.0.clone(), entry.1.duplicate()));
            j = j + 1;
        }
        let r = FilterColumns { output_columns, filters };
        proof {
            assert(r@.output_columns =~= self@.output_columns);
            assert(r@.filters =~= self@.filters);
        }
        r
    }
}

/// A single materialized row: the column names with their values, in column
/// order.
#[derive(Debug, Clone)]
pub struct Row {
    /// The cells of the row.
    pub cells: Vec<(String, ColumnValue)>,
}

/// The mathematical content of a row.
pub type RowView = Seq<(Seq<char>, ValueView)>;

/// The mathematical content of a row's cells.
pub open spec fn cells_view(s: Seq<(String, ColumnValue)>) -> RowView {
    s.map_values(|p: (String, ColumnValue)| (p.0@, p.1@))
}

impl View for Row {
    type V = RowView;

    open spec fn view(&self) -> RowView {
        cells_view(self.cells@)
    }
}

/// The first value the row holds under this column name.
pub open spec fn row_lookup(cells: RowView, name: Seq<char>) -> Option<ValueView>
    decreases cells.len(),
{
    if cells.len() == 0 {
        None
    } else if cells.first().0 == name {
        Some(cells.first().1)
    } else {
        row_lookup(cells.skip(1), name)
    }
}

fn row_get_from<'a>(
    cells: &'a Vec<(String, ColumnValue)>,
    i: usize,
    name: &str,
) -> (r: Option<&'a ColumnValue>)
    requires
        i <= cells@.len(),
    ensures
        match r {
            Some(v) => row_lookup(cells_view(cells@).skip(i as int), name@) == Some(v@),
            None => row_lookup(cells_view(cells@).skip(i as int), name@) is None,
        },
    decreases cells@.len() - i,
{
    if i == cells.len() {
        proof {
            assert(cells_view(cells@).skip(i as int) =~= Seq::<(Seq<char>, ValueView)>::empty());
        }
        None
    } else {
        proof {
            assert(cells_view(cells@).skip(i as int).first() == (cells@[i as int].0@, cells@[i as int].1@));
            assert(cells_view(cells@).skip(i as int).skip(1) =~= cells_view(cells@).skip(i + 1));
        }
        if str_eq_exec(cells[i].0.as_str(), name) {
            Some(&cells[i].1)
        } else {
            row_get_from(cells, i + 1, name)
        }
    }
}

impl Row {
    /// An empty row.
    pub fn new() -> (r: Row)
        ensures
            r@ == Seq::<(Seq<char>, ValueView)>::empty(),
    {
        let r = Row { cells: Vec::new() };
        proof {
            assert(r@ =~= Seq::<(Seq<char>, ValueView)>::empty());
        }
        r
    }

    /// The number of cells in the row.
    pub fn len(&self) -> (r: usize)
        ensures
            r == self@.len(),
    {
        self.cells.len()
    }

    /// Looks up the first cell with this column name.
    pub fn get(&self, name: &str) -> (r: Option<&ColumnValue>)
        ensures
            match r {
                Some(v) => row_lookup(self@, name@) == Some(v@),
                None => row_lookup(self@, name@) is None,
            },
    {
        proof {
            assert(cells_view(self.cells@).skip(0) =~= cells_view(self.cells@));
        }
        row_get_from(&self.cells, 0, name)
    }
}

/// The mathematical content of a sequence of rows.
pub open spec fn rows_view(rs: Seq<Row>) -> Seq<RowView> {
    rs.map_values(|r: Row| r@)
}

/// Whether a row is included in the output: the last filter-bearing column
/// of the row decides, a kind mismatch counting as "does not match";
/// columns without a filter do not affect inclusion, and a row with no
/// filter-bearing column at all is not included.
pub open spec fn row_included(cells: RowView, fmap: Map<Seq<char>, FilterView>) -> bool
    decreases cells.len(),
{
    if cells.len() == 0 {
        false
    } else if fmap.contains_key(cells.last().0) {
        eval_filter(cells.last().1, fmap[cells.last().0]) == Some(true)
    } else {
        row_included(cells.drop_last(), fmap)
    }
}

/// The projection of a row: exactly the cells whose column is named in the
/// output columns, in row order.
pub open spec fn project_cells(cells: RowView, out: Seq<Seq<char>>) -> RowView
    decreases cells.len(),
{
    if cells.len() == 0 {
        Seq::empty()
    } else {
        let rest = project_cells(cells.drop_last(), out);
        if out.contains(cells.last().0) {
            rest.push(cells.last())
        } else {
            rest
        }
    }
}

/// The included rows, each projected, in row order.
pub open spec fn matching_rows(
    rows: Seq<RowView>,
    out: Seq<Seq<char>>,
    fmap: Map<Seq<char>, FilterView>,
) -> Seq<RowView>
    decreases rows.len(),
{
    if rows.len() == 0 {
        Seq::empty()
    } else {
        let rest = matching_rows(rows.drop_last(), out, fmap);
        if row_included(rows.last(), fmap) {
            rest.push(project_cells(rows.last(), out))
        } else {
            rest
        }
    }
}

/// What a query yields over a sequence of rows: nothing at all when the
/// projection is empty, else the included rows, each projected.
pub open spec fn query_result(
    rows: Seq<RowView>,
    out: Seq<Seq<char>>,
    fmap: Map<Seq<char>, FilterView>,
) -> Seq<RowView> {
    if out.len() == 0 {
        Seq::empty()
    } else {
        matching_rows(rows, out, fmap)
    }
}

/// Empty projection: with no output columns the result is empty, whatever
/// the filters and whatever the rows.
pub proof fn lemma_empty_projection(rows: Seq<RowView>, fmap: Map<Seq<char>, FilterView>)
    ensures
        query_result(rows, Seq::empty(), fmap) == Seq::<RowView>::empty(),
{
}

fn contains_str(v: &Vec<String>, name: &str) -> (r: bool)
    ensures
        r == strings_view(v@).contains(name@),
{
    let mut i: usize = 0;
    while i < v.len()
        invariant
            0 <= i <= v@.len(),
            forall|k: int| 0 <= k < i ==> (#[trigger] v@[k])@ != name@,
        decreases v@.len() - i,
    {
        if str_eq_exec(v[i].as_str(), name) {
            proof {
                assert(strings_view(v@)[i as int] == name@);
            }
            return true;
        }
        i = i + 1;
    }
    proof {
        assert forall|k: int| 0 <= k < strings_view(v@).len() implies #[trigger] strings_view(v@)[k]
            != name@ by {
            assert(v@[k]@ != name@);
        }
    }
    false
}

/// Evaluates one row against the query: whether the row is included, and
/// its projection.
#[verifier::loop_isolation(false)]
fn filter_row(row: &Row, filter: &FilterColumns) -> (r: (bool, Row))
    ensures
        r.0 == row_included(row@, filter.filters_map()),
        r.1@ == project_cells(row@, filter@.output_columns),
{
    let mut included: bool = false;
    let mut projected: Row = Row::new();
    let n: usize = row.cells.len();
    let mut j: usize = 0;
    while j < n
        invariant
            0 <= j <= n,
            n == row.cells@.len(),
            included == row_included(
                cells_view(row.cells@.take(j as int)),
                filter.filters_map(),
            ),
            projected@ == project_cells(
                cells_view(row.cells@.take(j as int)),
                filter@.output_columns,
            ),
        decreases n - j,
    {
        proof {
            assert(cells_view(row.cells@.take(j + 1)).drop_last() =~= cells_view(
                row.cells@.take(j as int),
            ));
            assert(cells_view(row.cells@.take(j + 1)).last() == (
                row.cells@[j as int].0@,
                row.cells@[j as int].1@,
            ));
        }
        let name_ref: &String = &row.cells[j].0;
        let value_ref: &ColumnValue = &row.cells[j].1;
        match filter.get_filter(name_ref.as_str()) {
            Some(f) => {
                included = match value_ref.apply_filter_by_value(f) {
                    Ok(b) => b,
                    Err(_) => false,
                };
            },
            None => {},
        }
        let ghost pcells = projected.cells@;
        if contains_str(&filter.output_columns, name_ref.as_str()) {
            projected.cells.push((name_ref.clone(), value_ref.duplicate()));
            proof {
                assert(cells_view(projected.cells@) =~= cells_view(pcells).push((
                    row.cells@[j as int].0@,
                    row.cells@[j as int].1@,
                )));
            }
        }
        proof {
            assert(projected@ =~= project_cells(
                cells_view(row.cells@.take(j + 1)),
                filter@.output_columns,
            ));
        }
        j = j + 1;
    }
    proof {
        assert(row.cells@.take(n as int) =~= row.cells@);
    }
    (included, projected)
}

/// A filter query iterator: a lazy transformer that hands out the matching,
/// projected rows one at a time.
pub struct FilterQueryIterator {
    /// The source rows.
    pub data: Vec<Row>,
    /// The parsed query driving filtering and projection.
    pub filter: FilterColumns,
    /// How many source rows have been consumed.
    pub pos: usize,
}

impl FilterQueryIterator {
    /// Creates a new filter query iterator.
    pub fn new(data: Vec<Row>, filter: FilterColumns) -> (r: FilterQueryIterator)
        ensures
            r.data == data,
            r.filter == filter,
            r.pos == 0,
    {
        FilterQueryIterator { data, filter, pos: 0 }
    }

    /// Hands out the projection of the next included source row, advancing
    /// past it; nothing at all once the source is exhausted, and nothing at
    /// all from the start when the projection is empty.
    #[verifier::loop_isolation(false)]
    pub fn next(&mut self) -> (r: Option<Row>)
        ensures
            final(self).data == old(self).data,
            final(self).filter == old(self).filter,
            old(self).pos <= final(self).pos,
            match r {
                Some(row) => {
                    &&& old(self).filter@.output_columns.len() > 0
                    &&& old(self).pos < final(self).pos
                    &&& final(self).pos <= old(self).data@.len()
                    &&& row_included(
                        old(self).data@[final(self).pos - 1]@,
                        old(self).filter.filters_map(),
                    )
                    &&& row@ == project_cells(
                        old(self).data@[final(self).pos - 1]@,
                        old(self).filter@.output_columns,
                    )
                    &&& forall|k: int|
                        old(self).pos <= k < final(self).pos - 1 ==> !row_included(
                            (#[trigger] old(self).data@[k])@,
                            old(self).filter.filters_map(),
                        )
                },
                None => {
                    &&& (old(self).filter@.output_columns.len() == 0 ==> final(self).pos == old(
                        self,
                    ).pos)
                    &&& (old(self).filter@.output_columns.len() > 0 ==> forall|k: int|
                        old(self).pos <= k < old(self).data@.len() ==> !row_included(
                            (#[trigger] old(self).data@[k])@,
                            old(self).filter.filters_map(),
                        ))
                },
            },
    {
        if self.filter.output_columns.len() == 0 {
            return None;
        }
        let ghost orig = *self;
        while self.pos < self.data.len()
            invariant
                self.data == orig.data,
                self.filter == orig.filter,
                orig.pos <= self.pos,
                forall|k: int|
                    orig.pos <= k < self.pos ==> !row_included(
                        (#[trigger] orig.data@[k])@,
                        orig.filter.filters_map(),
                    ),
            decreases self.data@.len() - self.pos,
        {
            let fr: (bool, Row) = filter_row(&self.data[self.pos], &self.filter);
            self.pos = self.pos + 1;
            if fr.0 {
                return Some(fr.1);
            }
        }
        None
    }

    /// Runs the query to completion: every included source row from the
    /// current position on, projected, in row order.
    pub fn collect_rows(self) -> (r: Vec<Row>)
        ensures
            ({
                let start = if self.pos as int <= self.data@.len() {
                    self.pos as int
                } else {
                    self.data@.len() as int
                };
                rows_view(r@) == query_result(
                    rows_view(self.data@).skip(start),
                    self.filter@.output_columns,
                    self.filter.filters_map(),
                )
            }),
    {
        let mut result: Vec<Row> = Vec::new();
        if self.filter.output_columns.len() == 0 {
            proof {
                assert(rows_view(result@) =~= Seq::<RowView>::empty());
            }
            return result;
        }
        let n: usize = self.data.len();
        let start: usize = if self.pos <= n {
            self.pos
        } else {
            n
        };
        let mut i: usize = start;
        while i < n
            invariant
                start <= i <= n,
                n == self.data@.len(),
                self.filter@.output_columns.len() > 0,
                rows_view(result@) == matching_rows(
                    rows_view(self.data@).subrange(start as int, i as int),
                    self.filter@.output_columns,
                    self.filter.filters_map(),
                ),
            decreases n - i,
        {
            proof {
                assert(rows_view(self.data@).subrange(start as int, i + 1).drop_last()
                    =~= rows_view(self.data@).subrange(start as int, i as int));
                assert(rows_view(self.data@).subrange(start as int, i + 1).last() == self.data@[
                    i as int
                ]@);
            }
            let fr: (bool, Row) = filter_row(&self.data[i], &self.filter);
            if fr.0 {
                result.push(fr.1);
                proof {
                    assert(rows_view(result@) =~= matching_rows(
                        rows_view(self.data@).subrange(start as int, i + 1),
                        self.filter@.output_columns,
                        self.filter.filters_map(),
                    ));
                }
            }
            i = i + 1;
        }
        proof {
            assert(rows_view(self.data@).subrange(start as int, n as int) =~= rows_view(
                self.data@,
            ).skip(start as int));
        }
        result
    }

}

/// A trait for applying a filter to a whole table.
pub trait ApplyTableFilterByValue: crate::table::AsTable {
    /// Applies the filter to the table: an iterator over the matching,
    /// projected rows, starting at the first row.
    fn apply_filter(&self, filter: &FilterColumns) -> (r: FilterQueryIterator)
        ensures
            rows_view(r.data@) == crate::table::table_rows(self.table_view()),
            r.filter@ == filter@,
            r.pos == 0,
    ;
}

} // verus!
