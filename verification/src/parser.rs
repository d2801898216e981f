//! The query grammar and its parser.
//!
//! The grammar, written as parsing-expression rules (ordered choice, greedy
//! repetition with backtracking of a partial iteration, and a prefix match:
//! trailing text after a complete query is ignored):
//!
//! ```text
//! query      = project ~ filters
//! project    = "PROJECT" ~ columns
//! filters    = "FILTER" ~ filter
//! filter     = filter_expression ~ ("," ~ filter_expression)*
//! filter_expression = column ~ op ~ value
//! columns    = column ~ ("," ~ column)*
//! column     = ASCII_ALPHANUMERIC+            (atomic)
//! op         = "<" | "=" | ">"                (atomic)
//! value      = ASCII_DIGIT+ | "\"" ~ ASCII_ALPHANUMERIC* ~ "\""
//! WHITESPACE = " "+
//! ```
//!
//! Whitespace is skipped between the elements and the repetition iterations
//! of every rule except the atomic ones, so it may even stand between the
//! digits of an unquoted value or inside a quoted one; the matched slice
//! then keeps it.
//!
//! The spec functions below state these rules as deterministic functions
//! from the text and a position to the parsed result and the next position;
//! the executable parser is proved to return exactly what they say.

use vstd::prelude::*;
use vstd::string::StrSliceExecFns;
use vstd::string::StringExecFns;

use crate::error::{Error, FilterError};
use crate::filter::{
    assoc_map, build_filters, lemma_build_filters, upsert, FilterByValue, FilterColumns,
    FilterView, Operation,
};
use crate::table::{ColumnValue, IntegerColumnType, StringColumnType, ValueView};
use crate::text::{
    is_alnum_char, is_digit_char, is_i64_literal, is_space_char, i64_literal_val, parse_i64,
    strings_view, trim_quotes, trim_quotes_exec,
};

verus! {

/// A raw filter expression as the grammar yields it: the column name, the
/// operation, and the matched value slice, quotes and interior spaces
/// included.
pub type RawFilterExpr = (Seq<char>, Operation, Seq<char>);

/// The first position at or after `i` that does not hold a space.
pub open spec fn spec_skip_ws(s: Seq<char>, i: int) -> int
    decreases s.len() - i,
{
    if 0 <= i < s.len() && is_space_char(s[i]) {
        spec_skip_ws(s, i + 1)
    } else {
        i
    }
}

proof fn lemma_skip_ws(s: Seq<char>, i: int)
    requires
        0 <= i <= s.len(),
    ensures
        i <= spec_skip_ws(s, i) <= s.len(),
    decreases s.len() - i,
{
    if i < s.len() && is_space_char(s[i]) {
        lemma_skip_ws(s, i + 1);
    }
}

/// The end of the maximal run of alphanumeric characters starting at `i`.
pub open spec fn spec_scan_alnum(s: Seq<char>, i: int) -> int
    decreases s.len() - i,
{
    if 0 <= i < s.len() && is_alnum_char(s[i]) {
        spec_scan_alnum(s, i + 1)
    } else {
        i
    }
}

proof fn lemma_scan_alnum(s: Seq<char>, i: int)
    requires
        0 <= i <= s.len(),
    ensures
        i <= spec_scan_alnum(s, i) <= s.len(),
    decreases s.len() - i,
{
    if i < s.len() && is_alnum_char(s[i]) {
        lemma_scan_alnum(s, i + 1);
    }
}

/// A column name: one or more alphanumeric characters, matched atomically.
pub open spec fn spec_parse_column(s: Seq<char>, i: int) -> Option<(Seq<char>, int)> {
    let e = spec_scan_alnum(s, i);
    if e > i {
        Some((s.subrange(i, e), e))
    } else {
        None
    }
}

/// The end of a run of digits that may hold whitespace between the digits,
/// entered with a digit at `i`; the run ends after its last digit.
pub open spec fn spec_digit_run_end(s: Seq<char>, i: int) -> int
    decreases s.len() - i,
    when 0 <= i < s.len()
    via spec_digit_run_end_dec
{
    let j = spec_skip_ws(s, i + 1);
    if j < s.len() && is_digit_char(s[j]) {
        spec_digit_run_end(s, j)
    } else {
        i + 1
    }
}

#[via_fn]
proof fn spec_digit_run_end_dec(s: Seq<char>, i: int) {
    lemma_skip_ws(s, i + 1);
}

proof fn lemma_digit_run(s: Seq<char>, i: int)
    requires
        0 <= i < s.len(),
    ensures
        i < spec_digit_run_end(s, i) <= s.len(),
    decreases s.len() - i,
{
    lemma_skip_ws(s, i + 1);
    let j = spec_skip_ws(s, i + 1);
    if j < s.len() && is_digit_char(s[j]) {
        lemma_digit_run(s, j);
    }
}

/// The end of a run of alphanumeric characters that may hold whitespace
/// between them, entered with such a character at `i`.
pub open spec fn spec_alnum_ws_run_end(s: Seq<char>, i: int) -> int
    decreases s.len() - i,
    when 0 <= i < s.len()
    via spec_alnum_ws_run_end_dec
{
    let j = spec_skip_ws(s, i + 1);
    if j < s.len() && is_alnum_char(s[j]) {
        spec_alnum_ws_run_end(s, j)
    } else {
        i + 1
    }
}

#[via_fn]
proof fn spec_alnum_ws_run_end_dec(s: Seq<char>, i: int) {
    lemma_skip_ws(s, i + 1);
}

proof fn lemma_alnum_ws_run(s: Seq<char>, i: int)
    requires
        0 <= i < s.len(),
    ensures
        i < spec_alnum_ws_run_end(s, i) <= s.len(),
    decreases s.len() - i,
{
    lemma_skip_ws(s, i + 1);
    let j = spec_skip_ws(s, i + 1);
    if j < s.len() && is_alnum_char(s[j]) {
        lemma_alnum_ws_run(s, j);
    }
}

/// A value: a run of digits, or a double-quoted run of alphanumeric
/// characters (possibly empty). The matched slice is kept as it stands,
/// quotes and interior whitespace included.
pub open spec fn spec_parse_value(s: Seq<char>, i: int) -> Option<(Seq<char>, int)> {
    if i < s.len() && is_digit_char(s[i]) {
        let e = spec_digit_run_end(s, i);
        Some((s.subrange(i, e), e))
    } else if i < s.len() && s[i] == '"' {
        let j = spec_skip_ws(s, i + 1);
        let f = if j < s.len() && is_alnum_char(s[j]) {
            spec_skip_ws(s, spec_alnum_ws_run_end(s, j))
        } else {
            j
        };
        if f < s.len() && s[f] == '"' {
            Some((s.subrange(i, f + 1), f + 1))
        } else {
            None
        }
    } else {
        None
    }
}

proof fn lemma_parse_value(s: Seq<char>, i: int)
    requires
        0 <= i <= s.len(),
    ensures
        spec_parse_value(s, i) matches Some(p) ==> i < p.1 <= s.len(),
{
    if i < s.len() && is_digit_char(s[i]) {
        lemma_digit_run(s, i);
    } else if i < s.len() && s[i] == '"' {
        lemma_skip_ws(s, i + 1);
        let j = spec_skip_ws(s, i + 1);
        if j < s.len() && is_alnum_char(s[j]) {
            lemma_alnum_ws_run(s, j);
            lemma_skip_ws(s, spec_alnum_ws_run_end(s, j));
        }
    }
}

/// An operation symbol: a single `<`, `=` or `>`.
pub open spec fn spec_parse_op(s: Seq<char>, i: int) -> Option<(Operation, int)> {
    if i < s.len() && s[i] == '<' {
        Some((Operation::LessThan, i + 1))
    } else if i < s.len() && s[i] == '=' {
        Some((Operation::Equal, i + 1))
    } else if i < s.len() && s[i] == '>' {
        Some((Operation::GreaterThan, i + 1))
    } else {
        None
    }
}

/// A filter expression: a column, an operation and a value, whitespace
/// allowed between them.
pub open spec fn spec_parse_filter_expr(s: Seq<char>, i: int) -> Option<(RawFilterExpr, int)> {
    match spec_parse_column(s, i) {
        None => None,
        Some((name, j)) => {
            let k = spec_skip_ws(s, j);
            match spec_parse_op(s, k) {
                None => None,
                Some((op, k2)) => {
                    let m = spec_skip_ws(s, k2);
                    match spec_parse_value(s, m) {
                        None => None,
                        Some((raw, e)) => Some(((name, op, raw), e)),
                    }
                },
            }
        },
    }
}

proof fn lemma_parse_filter_expr(s: Seq<char>, i: int)
    requires
        0 <= i <= s.len(),
    ensures
        spec_parse_filter_expr(s, i) matches Some(p) ==> i < p.1 <= s.len(),
{
    lemma_scan_alnum(s, i);
    match spec_parse_column(s, i) {
        None => {},
        Some((name, j)) => {
            lemma_skip_ws(s, j);
            let k = spec_skip_ws(s, j);
            match spec_parse_op(s, k) {
                None => {},
                Some((op, k2)) => {
                    lemma_skip_ws(s, k2);
                    let m = spec_skip_ws(s, k2);
                    lemma_parse_value(s, m);
                },
            }
        },
    }
}

/// A comma-separated list of filter expressions: greedy, and a trailing
/// comma that is not followed by a whole expression is left unconsumed.
pub open spec fn spec_parse_filter_list(s: Seq<char>, i: int) -> Option<
    (Seq<RawFilterExpr>, int),
>
    decreases s.len() - i,
    when 0 <= i <= s.len()
    via spec_parse_filter_list_dec
{
    match spec_parse_filter_expr(s, i) {
        None => None,
        Some((expr, j)) => {
            let k = spec_skip_ws(s, j);
            if k < s.len() && s[k] == ',' {
                let m = spec_skip_ws(s, k + 1);
                match spec_parse_filter_list(s, m) {
                    Some((rest, e)) => Some((seq![expr] + rest, e)),
                    None => Some((seq![expr], j)),
                }
            } else {
                Some((seq![expr], j))
            }
        },
    }
}

#[via_fn]
proof fn spec_parse_filter_list_dec(s: Seq<char>, i: int) {
    lemma_parse_filter_expr(s, i);
    match spec_parse_filter_expr(s, i) {
        None => {},
        Some((expr, j)) => {
            lemma_skip_ws(s, j);
            let k = spec_skip_ws(s, j);
            if k < s.len() && s[k] == ',' {
                lemma_skip_ws(s, k + 1);
            }
        },
    }
}

proof fn lemma_parse_filter_list(s: Seq<char>, i: int)
    requires
        0 <= i <= s.len(),
    ensures
        spec_parse_filter_list(s, i) matches Some(p) ==> i < p.1 <= s.len(),
    decreases s.len() - i,
{
    lemma_parse_filter_expr(s, i);
    match spec_parse_filter_expr(s, i) {
        None => {},
        Some((expr, j)) => {
            lemma_skip_ws(s, j);
            let k = spec_skip_ws(s, j);
            if k < s.len() && s[k] == ',' {
                lemma_skip_ws(s, k + 1);
                let m = spec_skip_ws(s, k + 1);
                lemma_parse_filter_list(s, m);
            }
        },
    }
}

/// A comma-separated list of column names: greedy, and a trailing comma
/// that is not followed by a column is left unconsumed.
pub open spec fn spec_parse_columns(s: Seq<char>, i: int) -> Option<(Seq<Seq<char>>, int)>
    decreases s.len() - i,
    when 0 <= i <= s.len()
    via spec_parse_columns_dec
{
    match spec_parse_column(s, i) {
        None => None,
        Some((name, j)) => {
            let k = spec_skip_ws(s, j);
            if k < s.len() && s[k] == ',' {
                let m = spec_skip_ws(s, k + 1);
                match spec_parse_columns(s, m) {
                    Some((rest, e)) => Some((seq![name] + rest, e)),
                    None => Some((seq![name], j)),
                }
            } else {
                Some((seq![name], j))
            }
        },
    }
}

#[via_fn]
proof fn spec_parse_columns_dec(s: Seq<char>, i: int) {
    lemma_scan_alnum(s, i);
    match spec_parse_column(s, i) {
        None => {},
        Some((name, j)) => {
            lemma_skip_ws(s, j);
            let k = spec_skip_ws(s, j);
            if k < s.len() && s[k] == ',' {
                lemma_skip_ws(s, k + 1);
            }
        },
    }
}

proof fn lemma_parse_columns(s: Seq<char>, i: int)
    requires
        0 <= i <= s.len(),
    ensures
        spec_parse_columns(s, i) matches Some(p) ==> i < p.1 <= s.len(),
    decreases s.len() - i,
{
    lemma_scan_alnum(s, i);
    match spec_parse_column(s, i) {
        None => {},
        Some((name, j)) => {
            lemma_skip_ws(s, j);
            let k = spec_skip_ws(s, j);
            if k < s.len() && s[k] == ',' {
                lemma_skip_ws(s, k + 1);
                let m = spec_skip_ws(s, k + 1);
                lemma_parse_columns(s, m);
            }
        },
    }
}

/// The characters of the `PROJECT` keyword.
pub open spec fn project_kw() -> Seq<char> {
    seq!['P', 'R', 'O', 'J', 'E', 'C', 'T']
}

/// The characters of the `FILTER` keyword.
pub open spec fn filter_kw() -> Seq<char> {
    seq!['F', 'I', 'L', 'T', 'E', 'R']
}

/// The literal stands at position `i` of the text.
pub open spec fn matches_lit(s: Seq<char>, i: int, lit: Seq<char>) -> bool {
    0 <= i && i + lit.len() <= s.len() && s.subrange(i, i + lit.len()) == lit
}

/// The projection part: the `PROJECT` keyword and the columns list,
/// whitespace allowed between them.
pub open spec fn spec_parse_project(s: Seq<char>, i: int) -> Option<(Seq<Seq<char>>, int)> {
    if matches_lit(s, i, project_kw()) {
        spec_parse_columns(s, spec_skip_ws(s, i + 7))
    } else {
        None
    }
}

/// A whole query: the projection part, then the `FILTER` keyword and the
/// filter list. Trailing text is ignored.
pub open spec fn spec_parse_query(s: Seq<char>) -> Option<(Seq<Seq<char>>, Seq<RawFilterExpr>)> {
    match spec_parse_project(s, 0) {
        None => None,
        Some((cols, e1)) => {
            let j = spec_skip_ws(s, e1);
            if matches_lit(s, j, filter_kw()) {
                let k = spec_skip_ws(s, j + 6);
                match spec_parse_filter_list(s, k) {
                    None => None,
                    Some((exprs, _e)) => Some((cols, exprs)),
                }
            } else {
                None
            }
        },
    }
}

/// How a matched value slice becomes a filter operand: a full decimal `i64`
/// literal becomes an integer; anything else is a string with its leading
/// and trailing quotes stripped.
pub open spec fn interp_value_literal(raw: Seq<char>) -> ValueView {
    if is_i64_literal(raw) {
        ValueView::Int(i64_literal_val(raw))
    } else {
        ValueView::Str(trim_quotes(raw))
    }
}

/// The filters a list of raw expressions stands for.
pub open spec fn interp_exprs(exprs: Seq<RawFilterExpr>) -> Seq<(Seq<char>, FilterView)> {
    exprs.map_values(
        |e: RawFilterExpr|
            (e.0, FilterView { operation: e.1, value: interp_value_literal(e.2) }),
    )
}

/// The mathematical content of a list of raw expressions held in owned
/// strings.
pub open spec fn exprs_view(v: Seq<(String, Operation, String)>) -> Seq<RawFilterExpr> {
    v.map_values(|t: (String, Operation, String)| (t.0@, t.1, t.2@))
}

fn skip_ws(s: &str, n: usize, i: usize) -> (r: usize)
    requires
        n == s@.len(),
        i <= n,
    ensures
        r == spec_skip_ws(s@, i as int),
        i <= r <= n,
    decreases n - i,
{
    if i < n && s.get_char(i) == ' ' {
        skip_ws(s, n, i + 1)
    } else {
        i
    }
}

fn is_alnum_exec(c: char) -> (r: bool)
    ensures
        r == is_alnum_char(c),
{
    let u: u32 = c as u32;
    (u >= 48 && u <= 57) || (u >= 65 && u <= 90) || (u >= 97 && u <= 122)
}

fn is_digit_exec(c: char) -> (r: bool)
    ensures
        r == is_digit_char(c),
{
    let u: u32 = c as u32;
    u >= 48 && u <= 57
}

fn scan_alnum(s: &str, n: usize, i: usize) -> (r: usize)
    requires
        n == s@.len(),
        i <= n,
    ensures
        r == spec_scan_alnum(s@, i as int),
        i <= r <= n,
    decreases n - i,
{
    if i < n && is_alnum_exec(s.get_char(i)) {
        scan_alnum(s, n, i + 1)
    } else {
        i
    }
}

fn parse_column(s: &str, n: usize, i: usize) -> (r: Option<(String, usize)>)
    requires
        n == s@.len(),
        i <= n,
    ensures
        match spec_parse_column(s@, i as int) {
            Some(p) => r matches Some(q) && q.0@ == p.0 && q.1 == p.1 && i < q.1 <= n,
            None => r is None,
        },
{
    let e: usize = scan_alnum(s, n, i);
    if e > i {
        Some((s.substring_char(i, e).to_owned(), e))
    } else {
        None
    }
}

fn digit_run_end(s: &str, n: usize, i: usize) -> (r: usize)
    requires
        n == s@.len(),
        i < n,
    ensures
        r == spec_digit_run_end(s@, i as int),
        i < r <= n,
    decreases n - i,
{
    let j: usize = skip_ws(s, n, i + 1);
    if j < n && is_digit_exec(s.get_char(j)) {
        digit_run_end(s, n, j)
    } else {
        i + 1
    }
}

fn alnum_ws_run_end(s: &str, n: usize, i: usize) -> (r: usize)
    requires
        n == s@.len(),
        i < n,
    ensures
        r == spec_alnum_ws_run_end(s@, i as int),
        i < r <= n,
    decreases n - i,
{
    let j: usize = skip_ws(s, n, i + 1);
    if j < n && is_alnum_exec(s.get_char(j)) {
        alnum_ws_run_end(s, n, j)
    } else {
        i + 1
    }
}

fn parse_value(s: &str, n: usize, i: usize) -> (r: Option<(String, usize)>)
    requires
        n == s@.len(),
        i <= n,
    ensures
        match spec_parse_value(s@, i as int) {
            Some(p) => r matches Some(q) && q.0@ == p.0 && q.1 == p.1 && i < q.1 <= n,
            None => r is None,
        },
{
    if i < n && is_digit_exec(s.get_char(i)) {
        let e: usize = digit_run_end(s, n, i);
        Some((s.substring_char(i, e).to_owned(), e))
    } else if i < n && s.get_char(i) == '"' {
        let j: usize = skip_ws(s, n, i + 1);
        let f: usize = if j < n && is_alnum_exec(s.get_char(j)) {
            let e2: usize = alnum_ws_run_end(s, n, j);
            skip_ws(s, n, e2)
        } else {
            j
        };
        if f < n && s.get_char(f) == '"' {
            Some((s.substring_char(i, f + 1).to_owned(), f + 1))
        } else {
            None
        }
    } else {
        None
    }
}

fn parse_op(s: &str, n: usize, i: usize) -> (r: Option<(Operation, usize)>)
    requires
        n == s@.len(),
        i <= n,
    ensures
        match spec_parse_op(s@, i as int) {
            Some(p) => r matches Some(q) && q.0 == p.0 && q.1 == p.1 && i < q.1 <= n,
            None => r is None,
        },
{
    if i < n {
        let c: char = s.get_char(i);
        if c == '<' {
            Some((Operation::LessThan, i + 1))
        } else if c == '=' {
            Some((Operation::Equal, i + 1))
        } else if c == '>' {
            Some((Operation::GreaterThan, i + 1))
        } else {
            None
        }
    } else {
        None
    }
}

fn parse_filter_expr(s: &str, n: usize, i: usize) -> (r: Option<((String, Operation, String), usize)>)
    requires
        n == s@.len(),
        i <= n,
    ensures
        match spec_parse_filter_expr(s@, i as int) {
            Some(p) => r matches Some(q) && q.0.0@ == p.0.0 && q.0.1 == p.0.1 && q.0.2@ == p.0.2
                && q.1 == p.1 && i < q.1 <= n,
            None => r is None,
        },
{
    match parse_column(s, n, i) {
        None => None,
        Some((name, j)) => {
            let k: usize = skip_ws(s, n, j);
            match parse_op(s, n, k) {
                None => None,
                Some((op, k2)) => {
                    let m: usize = skip_ws(s, n, k2);
                    match parse_value(s, n, m) {
                        None => None,
                        Some((raw, e)) => Some(((name, op, raw), e)),
                    }
                },
            }
        },
    }
}

fn parse_filter_list(
    s: &str,
    n: usize,
    i: usize,
    acc: &mut Vec<(String, Operation, String)>,
) -> (r: Option<usize>)
    requires
        n == s@.len(),
        i <= n,
    ensures
        match spec_parse_filter_list(s@, i as int) {
            Some(p) => r matches Some(e) && e == p.1 && i < e <= n && exprs_view(final(acc)@)
                == exprs_view(old(acc)@) + p.0,
            None => r is None && final(acc)@ == old(acc)@,
        },
    decreases n - i,
{
    match parse_filter_expr(s, n, i) {
        None => None,
        Some((expr, j)) => {
            let ghost prev = acc@;
            acc.push(expr);
            proof {
                assert(exprs_view(acc@) =~= exprs_view(prev).push(
                    (expr.0@, expr.1, expr.2@),
                ));
            }
            let k: usize = skip_ws(s, n, j);
            if k < n && s.get_char(k) == ',' {
                let m: usize = skip_ws(s, n, k + 1);
                let rec: Option<usize> = parse_filter_list(s, n, m, acc);
                match rec {
                    Some(e) => {
                        proof {
                            let spec_rest = spec_parse_filter_list(s@, m as int)->Some_0.0;
                            assert(exprs_view(prev) + (seq![(expr.0@, expr.1, expr.2@)]
                                + spec_rest) =~= (exprs_view(prev).push(
                                (expr.0@, expr.1, expr.2@),
                            )) + spec_rest);
                        }
                        Some(e)
                    },
                    None => {
                        proof {
                            assert(exprs_view(prev) + seq![(expr.0@, expr.1, expr.2@)]
                                =~= exprs_view(prev).push((expr.0@, expr.1, expr.2@)));
                        }
                        Some(j)
                    },
                }
            } else {
                proof {
                    assert(exprs_view(prev) + seq![(expr.0@, expr.1, expr.2@)] =~= exprs_view(
                        prev,
                    ).push((expr.0@, expr.1, expr.2@)));
                }
                Some(j)
            }
        },
    }
}

fn parse_columns(s: &str, n: usize, i: usize, acc: &mut Vec<String>) -> (r: Option<usize>)
    requires
        n == s@.len(),
        i <= n,
    ensures
        match spec_parse_columns(s@, i as int) {
            Some(p) => r matches Some(e) && e == p.1 && i < e <= n && strings_view(final(acc)@)
                == strings_view(old(acc)@) + p.0,
            None => r is None && final(acc)@ == old(acc)@,
        },
    decreases n - i,
{
    match parse_column(s, n, i) {
        None => None,
        Some((name, j)) => {
            let ghost prev = acc@;
            let ghost namev = name@;
            acc.push(name);
            proof {
                assert(strings_view(acc@) =~= strings_view(prev).push(namev));
            }
            let k: usize = skip_ws(s, n, j);
            if k < n && s.get_char(k) == ',' {
                let m: usize = skip_ws(s, n, k + 1);
                let rec: Option<usize> = parse_columns(s, n, m, acc);
                match rec {
                    Some(e) => {
                        proof {
                            let spec_rest = spec_parse_columns(s@, m as int)->Some_0.0;
                            assert(strings_view(prev) + (seq![namev] + spec_rest) =~= (
                            strings_view(prev).push(namev)) + spec_rest);
                        }
                        Some(e)
                    },
                    None => {
                        proof {
                            assert(strings_view(prev) + seq![namev] =~= strings_view(prev).push(
                                namev,
                            ));
                        }
                        Some(j)
                    },
                }
            } else {
                proof {
                    assert(strings_view(prev) + seq![namev] =~= strings_view(prev).push(namev));
                }
                Some(j)
            }
        },
    }
}

fn has_project_at(s: &str, n: usize, i: usize) -> (r: bool)
    requires
        n == s@.len(),
        i <= n,
    ensures
        r == matches_lit(s@, i as int, project_kw()),
{
    if n < 7 || i > n - 7 {
        return false;
    }
    let r: bool = s.get_char(i) == 'P' && s.get_char(i + 1) == 'R' && s.get_char(i + 2) == 'O'
        && s.get_char(i + 3) == 'J' && s.get_char(i + 4) == 'E' && s.get_char(i + 5) == 'C'
        && s.get_char(i + 6) == 'T';
    proof {
        if r {
            assert(s@.subrange(i as int, i + 7) =~= project_kw());
        } else {
            if s@.subrange(i as int, i + 7) == project_kw() {
                assert(forall|t: int|
                    0 <= t < 7 ==> s@.subrange(i as int, i + 7)[t] == project_kw()[t]);
                assert(false);
            }
        }
    }
    r
}

fn has_filter_at(s: &str, n: usize, i: usize) -> (r: bool)
    requires
        n == s@.len(),
        i <= n,
    ensures
        r == matches_lit(s@, i as int, filter_kw()),
{
    if n < 6 || i > n - 6 {
        return false;
    }
    let r: bool = s.get_char(i) == 'F' && s.get_char(i + 1) == 'I' && s.get_char(i + 2) == 'L'
        && s.get_char(i + 3) == 'T' && s.get_char(i + 4) == 'E' && s.get_char(i + 5) == 'R';
    proof {
        if r {
            assert(s@.subrange(i as int, i + 6) =~= filter_kw());
        } else {
            if s@.subrange(i as int, i + 6) == filter_kw() {
                assert(forall|t: int|
                    0 <= t < 6 ==> s@.subrange(i as int, i + 6)[t] == filter_kw()[t]);
                assert(false);
            }
        }
    }
    r
}

fn parse_error(text: &str) -> (r: Error)
    ensures
        r matches Error::Filter(fe) && fe matches FilterError::Parse(_),
{
    Error::Filter(FilterError::Parse(text.to_owned()))
}

/// Parses a filter query string into a `FilterColumns`.
///
/// Exactly the strings the grammar accepts parse; everything else fails with
/// a parse error. On success the output columns hold the column names of the
/// projection in left-to-right source order, and the filters hold one entry
/// per distinct filtered column, a later expression on the same column
/// overriding an earlier one.
#[verifier::loop_isolation(false)]
pub fn parse_filter_query(input: &str) -> (r: Result<FilterColumns, Error>)
    ensures
        match spec_parse_query(input@) {
            Some(q) => (r matches Ok(fc) && fc@.output_columns == q.0 && fc@.filters
                == build_filters(interp_exprs(q.1)) && fc.filters_map() == assoc_map(
                interp_exprs(q.1),
            ) && fc.wf()),
            None => (r matches Err(e) && e matches Error::Filter(fe) && fe
                matches FilterError::Parse(_)),
        },
{
    let n: usize = input.unicode_len();
    if !has_project_at(input, n, 0) {
        return Err(parse_error("Expected the PROJECT keyword"));
    }
    let j0: usize = skip_ws(input, n, 7);
    let mut columns: Vec<String> = Vec::new();
    let e1: usize = match parse_columns(input, n, j0, &mut columns) {
        None => {
            return Err(parse_error("Expected columns"));
        },
        Some(e1) => e1,
    };
    let j: usize = skip_ws(input, n, e1);
    if !has_filter_at(input, n, j) {
        return Err(parse_error("Expected the FILTER keyword"));
    }
    let k: usize = skip_ws(input, n, j + 6);
    let mut raw_exprs: Vec<(String, Operation, String)> = Vec::new();
    match parse_filter_list(input, n, k, &mut raw_exprs) {
        None => {
            return Err(parse_error("Expected filter expressions"));
        },
        Some(_e) => {},
    }
    let ghost q = spec_parse_query(input@)->Some_0;
    proof {
        assert(strings_view(columns@) =~= q.0);
        assert(exprs_view(raw_exprs@) =~= q.1);
    }
    let mut fc: FilterColumns = FilterColumns { output_columns: columns, filters: Vec::new() };
    proof {
        assert(fc@.filters =~= Seq::<(Seq<char>, crate::filter::FilterView)>::empty());
        assert(fc@.filters =~= build_filters(interp_exprs(q.1.take(0))));
    }
    let ghost colsv = fc@.output_columns;
    let m: usize = raw_exprs.len();
    let mut idx: usize = 0;
    while idx < m
        invariant
            0 <= idx <= m,
            m == raw_exprs@.len(),
            fc.wf(),
            fc@.output_columns == colsv,
            fc@.filters == build_filters(interp_exprs(q.1.take(idx as int))),
        decreases m - idx,
    {
        let entry: &(String, Operation, String) = &raw_exprs[idx];
        let value: ColumnValue = match parse_i64(entry.2.as_str()) {
            Some(v) => ColumnValue::Integer(IntegerColumnType(v)),
            None => ColumnValue::String(StringColumnType(trim_quotes_exec(entry.2.as_str()))),
        };
        let fbv: FilterByValue = FilterByValue { operation: entry.1, value };
        proof {
            assert(fbv@ == FilterView {
                operation: q.1[idx as int].1,
                value: interp_value_literal(q.1[idx as int].2),
            });
            assert(interp_exprs(q.1.take(idx + 1)).drop_last() =~= interp_exprs(
                q.1.take(idx as int),
            ));
            assert(interp_exprs(q.1.take(idx + 1)).last() == (q.1[idx as int].0, fbv@));
        }
        fc.insert_filter(entry.0.clone(), fbv);
        idx = idx + 1;
    }
    proof {
        assert(q.1.take(m as int) =~= q.1);
        lemma_build_filters(interp_exprs(q.1));
    }
    Ok(fc)
}

} // verus!
