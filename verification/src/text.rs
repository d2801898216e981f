//! Character classes, decimal literals and lexicographic order: the textual
//! ground the value model and the query grammar are built on.

use vstd::prelude::*;
use vstd::string::StrSliceExecFns;
use vstd::string::StringExecFns;

verus! {

/// The mathematical content of a sequence of strings.
pub open spec fn strings_view(s: Seq<String>) -> Seq<Seq<char>> {
    s.map_values(|x: String| x@)
}

/// The only whitespace the query language knows.
pub open spec fn is_space_char(c: char) -> bool {
    c == ' '
}

/// An ASCII decimal digit.
pub open spec fn is_digit_char(c: char) -> bool {
    48 <= c as u32 <= 57
}

/// An ASCII letter or digit.
pub open spec fn is_alnum_char(c: char) -> bool {
    is_digit_char(c) || (65 <= c as u32 <= 90) || (97 <= c as u32 <= 122)
}

/// The numeric value of a digit character; zero for anything else.
pub open spec fn digit_val(c: char) -> int {
    if is_digit_char(c) {
        c as u32 - 48
    } else {
        0
    }
}

/// The digit character for a value between zero and nine.
pub open spec fn digit_char(n: int) -> char {
    if n == 0 {
        '0'
    } else if n == 1 {
        '1'
    } else if n == 2 {
        '2'
    } else if n == 3 {
        '3'
    } else if n == 4 {
        '4'
    } else if n == 5 {
        '5'
    } else if n == 6 {
        '6'
    } else if n == 7 {
        '7'
    } else if n == 8 {
        '8'
    } else {
        '9'
    }
}

/// The value of a sequence of decimal digits, most significant first.
pub open spec fn dec_val(s: Seq<char>) -> int
    decreases s.len(),
{
    if s.len() == 0 {
        0
    } else {
        dec_val(s.drop_last()) * 10 + digit_val(s.last())
    }
}

/// Every character of the sequence is a decimal digit.
pub open spec fn all_digits(s: Seq<char>) -> bool {
    forall|i: int| 0 <= i < s.len() ==> is_digit_char(#[trigger] s[i])
}

/// Whether the text is exactly what `i64` accepts as a decimal literal:
/// an optional sign followed by one or more digits, within the `i64` range.
pub open spec fn is_i64_literal(s: Seq<char>) -> bool {
    if s.len() == 0 {
        false
    } else if s[0] == '-' {
        s.len() > 1 && all_digits(s.skip(1)) && dec_val(s.skip(1)) <= 0x8000_0000_0000_0000
    } else if s[0] == '+' {
        s.len() > 1 && all_digits(s.skip(1)) && dec_val(s.skip(1)) <= 0x7fff_ffff_ffff_ffff
    } else {
        all_digits(s) && dec_val(s) <= 0x7fff_ffff_ffff_ffff
    }
}

/// The value of an `i64` decimal literal.
pub open spec fn i64_literal_val(s: Seq<char>) -> int {
    if s.len() > 0 && s[0] == '-' {
        -dec_val(s.skip(1))
    } else if s.len() > 0 && s[0] == '+' {
        dec_val(s.skip(1))
    } else {
        dec_val(s)
    }
}

pub proof fn lemma_dec_val_nonneg(s: Seq<char>)
    ensures
        dec_val(s) >= 0,
    decreases s.len(),
{
    if s.len() > 0 {
        lemma_dec_val_nonneg(s.drop_last());
    }
}

/// Dropping trailing digits can only shrink the value of a digit string.
pub proof fn lemma_dec_val_take_le(s: Seq<char>, k: int)
    requires
        0 <= k <= s.len(),
    ensures
        dec_val(s.take(k)) <= dec_val(s),
    decreases s.len(),
{
    if k == s.len() {
        assert(s.take(k) =~= s);
    } else {
        lemma_dec_val_nonneg(s.drop_last());
        assert(s.take(k) =~= s.drop_last().take(k));
        lemma_dec_val_take_le(s.drop_last(), k);
    }
}

/// Parses a full decimal `i64` literal, exactly as `i64`'s own string parsing
/// accepts it: an optional `+` or `-` sign, then one or more ASCII digits,
/// nothing else, and a value within the `i64` range.
pub fn parse_i64(s: &str) -> (r: Option<i64>)
    ensures
        match r {
            Some(v) => is_i64_literal(s@) && v as int == i64_literal_val(s@),
            None => !is_i64_literal(s@),
        },
{
    let n: usize = s.unicode_len();
    if n == 0 {
        return None;
    }
    let first: char = s.get_char(0);
    let negative: bool = first == '-';
    let start: usize = if first == '-' || first == '+' {
        1
    } else {
        0
    };
    if start == n {
        return None;
    }
    let ghost t: Seq<char> = s@.subrange(start as int, n as int);
    proof {
        if start == 1 {
            assert(t =~= s@.skip(1));
        } else {
            assert(t =~= s@);
        }
    }
    let mut acc: u64 = 0;
    let mut i: usize = start;
    while i < n
        invariant
            start <= i <= n,
            start < n,
            start == 0 || start == 1,
            n == s@.len(),
            start == 1 <==> (s@[0] == '-' || s@[0] == '+'),
            negative <==> s@[0] == '-',
            t == s@.subrange(start as int, n as int),
            start == 1 ==> t == s@.skip(1),
            start == 0 ==> t == s@,
            acc as int == dec_val(s@.subrange(start as int, i as int)),
            all_digits(s@.subrange(start as int, i as int)),
        decreases n - i,
    {
        let c: char = s.get_char(i);
        if !(c as u32 >= 48 && c as u32 <= 57) {
            proof {
                assert(t[i - start] == c);
                assert(!all_digits(t));
                assert(!is_i64_literal(s@));
            }
            return None;
        }
        let d: u64 = (c as u32 - 48) as u64;
        let ghost prefix: Seq<char> = s@.subrange(start as int, i as int);
        let ghost prefix1: Seq<char> = s@.subrange(start as int, i + 1);
        proof {
            assert(prefix1.drop_last() =~= prefix);
            assert(prefix1.last() == c);
        }
        let next: Option<u64> = match acc.checked_mul(10) {
            Some(m) => m.checked_add(d),
            None => None,
        };
        match next {
            Some(v) => {
                acc = v;
            },
            None => {
                proof {
                    // The digits seen so far already exceed the `i64` range, and
                    // appending more digits cannot bring the value back down.
                    assert(dec_val(prefix1) > u64::MAX as int);
                    if all_digits(t) {
                        assert(prefix1 =~= t.take(i + 1 - start));
                        lemma_dec_val_take_le(t, i + 1 - start);
                        assert(dec_val(t) > 0x8000_0000_0000_0000);
                    }
                    assert(!is_i64_literal(s@));
                }
                return None;
            },
        }
        i = i + 1;
    }
    proof {
        assert(s@.subrange(start as int, n as int) =~= t);
    }
    if negative {
        proof {
            assert(t =~= s@.skip(1));
        }
        if acc <= 0x7fff_ffff_ffff_ffff {
            Some(-(acc as i64))
        } else if acc == 0x8000_0000_0000_0000 {
            Some(i64::MIN)
        } else {
            None
        }
    } else {
        proof {
            if start == 1 {
                assert(t =~= s@.skip(1));
            } else {
                assert(t =~= s@);
            }
        }
        if acc <= 0x7fff_ffff_ffff_ffff {
            Some(acc as i64)
        } else {
            None
        }
    }
}

/// The decimal rendering of a nonnegative integer.
pub open spec fn udecimal(n: int) -> Seq<char>
    decreases n,
{
    if n < 10 {
        seq![digit_char(n)]
    } else {
        udecimal(n / 10).push(digit_char(n % 10))
    }
}

/// The decimal rendering of a signed integer: a minus sign for negatives,
/// then the digits.
pub open spec fn decimal_i64(v: int) -> Seq<char> {
    if v < 0 {
        seq!['-'] + udecimal(-v)
    } else {
        udecimal(v)
    }
}

fn digit_str(d: u64) -> (r: &'static str)
    requires
        d < 10,
    ensures
        r@ == seq![digit_char(d as int)],
{
    if d == 0 {
        proof {
            reveal_strlit("0");
            assert("0"@ =~= seq!['0']);
        }
        "0"
    } else if d == 1 {
        proof {
            reveal_strlit("1");
            assert("1"@ =~= seq!['1']);
        }
        "1"
    } else if d == 2 {
        proof {
            reveal_strlit("2");
            assert("2"@ =~= seq!['2']);
        }
        "2"
    } else if d == 3 {
        proof {
            reveal_strlit("3");
            assert("3"@ =~= seq!['3']);
        }
        "3"
    } else if d == 4 {
        proof {
            reveal_strlit("4");
            assert("4"@ =~= seq!['4']);
        }
        "4"
    } else if d == 5 {
        proof {
            reveal_strlit("5");
            assert("5"@ =~= seq!['5']);
        }
        "5"
    } else if d == 6 {
        proof {
            reveal_strlit("6");
            assert("6"@ =~= seq!['6']);
        }
        "6"
    } else if d == 7 {
        proof {
            reveal_strlit("7");
            assert("7"@ =~= seq!['7']);
        }
        "7"
    } else if d == 8 {
        proof {
            reveal_strlit("8");
            assert("8"@ =~= seq!['8']);
        }
        "8"
    } else {
        proof {
            reveal_strlit("9");
            assert("9"@ =~= seq!['9']);
        }
        "9"
    }
}

fn render_u64(n: u64) -> (s: String)
    ensures
        s@ == udecimal(n as int),
    decreases n,
{
    if n < 10 {
        digit_str(n).to_owned()
    } else {
        let mut s: String = render_u64(n / 10);
        s.append(digit_str(n % 10));
        proof {
            assert(udecimal((n / 10) as int) + seq![digit_char((n % 10) as int)] =~= udecimal(
                (n / 10) as int,
            ).push(digit_char((n % 10) as int)));
        }
        s
    }
}

/// Renders an integer in its decimal form.
pub fn render_i64(v: i64) -> (s: String)
    ensures
        s@ == decimal_i64(v as int),
{
    if v >= 0 {
        render_u64(v as u64)
    } else {
        let mag: u64 = ((-(v + 1)) as u64) + 1;
        proof {
            assert(mag as int == -(v as int));
        }
        let mut s: String = String::from_str("-");
        proof {
            reveal_strlit("-");
            assert("-"@ =~= seq!['-']);
        }
        let digits: String = render_u64(mag);
        s.append(digits.as_str());
        s
    }
}

/// Lexicographic order over character sequences, decided from position `i` on.
pub open spec fn str_lt_from(a: Seq<char>, b: Seq<char>, i: int) -> bool
    decreases b.len() - i,
{
    if i >= b.len() {
        false
    } else if i >= a.len() {
        true
    } else if (a[i] as u32) < (b[i] as u32) {
        true
    } else if (a[i] as u32) > (b[i] as u32) {
        false
    } else {
        str_lt_from(a, b, i + 1)
    }
}

/// Lexicographic order over character sequences, the order `String` sorts by.
pub open spec fn str_lt(a: Seq<char>, b: Seq<char>) -> bool {
    str_lt_from(a, b, 0)
}

fn str_lt_at(a: &str, b: &str, i: usize, an: usize, bn: usize) -> (r: bool)
    requires
        an == a@.len(),
        bn == b@.len(),
        i <= an,
        i <= bn,
    ensures
        r == str_lt_from(a@, b@, i as int),
    decreases bn - i,
{
    if i >= bn {
        false
    } else if i >= an {
        true
    } else {
        let ca: char = a.get_char(i);
        let cb: char = b.get_char(i);
        if (ca as u32) < (cb as u32) {
            true
        } else if (ca as u32) > (cb as u32) {
            false
        } else {
            str_lt_at(a, b, i + 1, an, bn)
        }
    }
}

/// Decides the lexicographic order of two strings.
pub fn str_lt_exec(a: &str, b: &str) -> (r: bool)
    ensures
        r == str_lt(a@, b@),
{
    let an: usize = a.unicode_len();
    let bn: usize = b.unicode_len();
    str_lt_at(a, b, 0, an, bn)
}

/// Decides whether two strings hold the same characters.
pub fn str_eq_exec(a: &str, b: &str) -> (r: bool)
    ensures
        r == (a@ == b@),
{
    let an: usize = a.unicode_len();
    let bn: usize = b.unicode_len();
    if an != bn {
        return false;
    }
    let mut i: usize = 0;
    while i < an
        invariant
            0 <= i <= an,
            an == a@.len(),
            an == b@.len(),
            forall|k: int| 0 <= k < i ==> a@[k] == b@[k],
        decreases an - i,
    {
        if a.get_char(i) != b.get_char(i) {
            return false;
        }
        i = i + 1;
    }
    proof {
        assert(a@ =~= b@);
    }
    true
}

/// What remains after stripping leading double quotes.
pub open spec fn trim_leading_quotes(s: Seq<char>) -> Seq<char>
    decreases s.len(),
{
    if s.len() > 0 && s[0] == '"' {
        trim_leading_quotes(s.skip(1))
    } else {
        s
    }
}

/// What remains after stripping trailing double quotes.
pub open spec fn trim_trailing_quotes(s: Seq<char>) -> Seq<char>
    decreases s.len(),
{
    if s.len() > 0 && s.last() == '"' {
        trim_trailing_quotes(s.drop_last())
    } else {
        s
    }
}

/// What remains after stripping all leading and trailing double quotes, the
/// way `trim_matches` strips a pattern from both ends.
pub open spec fn trim_quotes(s: Seq<char>) -> Seq<char> {
    trim_trailing_quotes(trim_leading_quotes(s))
}

proof fn lemma_trim_leading(s: Seq<char>, a: int)
    requires
        0 <= a <= s.len(),
        forall|k: int| 0 <= k < a ==> s[k] == '"',
        a < s.len() ==> s[a] != '"',
    ensures
        trim_leading_quotes(s) == s.subrange(a, s.len() as int),
    decreases a,
{
    if a == 0 {
        assert(s.subrange(0, s.len() as int) =~= s);
    } else {
        lemma_trim_leading(s.skip(1), a - 1);
        assert(s.skip(1).subrange(a - 1, s.skip(1).len() as int) =~= s.subrange(
            a,
            s.len() as int,
        ));
    }
}

proof fn lemma_trim_trailing(s: Seq<char>, b: int)
    requires
        0 <= b <= s.len(),
        forall|k: int| b <= k < s.len() ==> s[k] == '"',
        b > 0 ==> s[b - 1] != '"',
    ensures
        trim_trailing_quotes(s) == s.subrange(0, b),
    decreases s.len() - b,
{
    if b == s.len() {
        if s.len() > 0 {
            assert(s.subrange(0, b) =~= s);
        } else {
            assert(s.subrange(0, b) =~= s);
        }
    } else {
        lemma_trim_trailing(s.drop_last(), b);
        assert(s.drop_last().subrange(0, b) =~= s.subrange(0, b));
    }
}

/// Strips all leading and trailing double quotes from a string.
pub fn trim_quotes_exec(s: &str) -> (r: String)
    ensures
        r@ == trim_quotes(s@),
{
    let n: usize = s.unicode_len();
    let mut a: usize = 0;
    while a < n && s.get_char(a) == '"'
        invariant
            0 <= a <= n,
            n == s@.len(),
            forall|k: int| 0 <= k < a ==> s@[k] == '"',
        decreases n - a,
    {
        a = a + 1;
    }
    let mut b: usize = n;
    while b > a && s.get_char(b - 1) == '"'
        invariant
            a <= b <= n,
            n == s@.len(),
            forall|k: int| b <= k < n ==> s@[k] == '"',
        decreases b,
    {
        b = b - 1;
    }
    proof {
        lemma_trim_leading(s@, a as int);
        let t = s@.subrange(a as int, n as int);
        if b > a {
            lemma_trim_trailing(t, b - a);
        } else {
            lemma_trim_trailing(t, 0);
        }
        assert(t.subrange(0, b - a) =~= s@.subrange(a as int, b as int));
    }
    s.substring_char(a, b).to_owned()
}

} // verus!
