//! Period resolution: turning an anchor date into a match pattern for the
//! requested granularity, and counting the calendar days of a month.
//!
//! An anchor date is expected in `YYYY-MM-DD` form: exactly three
//! dash-separated fields.  The resolved pattern keeps the year (and for a
//! month report the month) verbatim and replaces the remaining fields
//! with the two-character wildcard `__`.

use vstd::prelude::*;
use vstd::string::StrSliceExecFns;
use vstd::string::StringExecFns;

use crate::models::ReportError;
use crate::models::ReportType;

verus! {

/// Number of `-` characters in `s`.
pub open spec fn dash_count(s: Seq<char>) -> int
    decreases s.len(),
{
    if s.len() == 0 {
        0
    } else {
        dash_count(s.drop_last()) + if s.last() == '-' {
            1int
        } else {
            0int
        }
    }
}

/// Index of the first `-` in `s`, or `s.len()` if there is none.
pub open spec fn first_dash(s: Seq<char>) -> int
    decreases s.len(),
{
    if s.len() == 0 {
        0
    } else if s[0] == '-' {
        0
    } else {
        1 + first_dash(s.skip(1))
    }
}

/// The characters before the first dash.
pub open spec fn year_field(s: Seq<char>) -> Seq<char> {
    s.take(first_dash(s))
}

/// Everything after the first dash (empty if there is no dash).
pub open spec fn after_first_dash(s: Seq<char>) -> Seq<char> {
    if first_dash(s) == s.len() {
        Seq::empty()
    } else {
        s.skip(first_dash(s) + 1)
    }
}

/// The characters between the first and the second dash.
pub open spec fn month_field(s: Seq<char>) -> Seq<char> {
    year_field(after_first_dash(s))
}

pub proof fn lemma_first_dash_bounds(s: Seq<char>)
    ensures
        0 <= first_dash(s) <= s.len(),
        forall|i: int| 0 <= i < first_dash(s) ==> s[i] != '-',
        first_dash(s) < s.len() ==> s[first_dash(s)] == '-',
    decreases s.len(),
{
    if s.len() != 0 && s[0] != '-' {
        lemma_first_dash_bounds(s.skip(1));
        assert forall|i: int| 0 <= i < first_dash(s) implies s[i] != '-' by {
            if i > 0 {
                assert(s.skip(1)[i - 1] == s[i]);
            }
        }
    }
}

pub proof fn lemma_dash_count_nonneg(s: Seq<char>)
    ensures
        dash_count(s) >= 0,
    decreases s.len(),
{
    if s.len() != 0 {
        lemma_dash_count_nonneg(s.drop_last());
    }
}

pub proof fn lemma_dash_count_add(a: Seq<char>, b: Seq<char>)
    ensures
        dash_count(a + b) == dash_count(a) + dash_count(b),
    decreases b.len(),
{
    if b.len() == 0 {
        assert(a + b =~= a);
    } else {
        lemma_dash_count_add(a, b.drop_last());
        assert((a + b).drop_last() =~= a + b.drop_last());
        assert((a + b).last() == b.last());
    }
}

pub proof fn lemma_dash_count_none(s: Seq<char>)
    requires
        forall|i: int| 0 <= i < s.len() ==> s[i] != '-',
    ensures
        dash_count(s) == 0,
    decreases s.len(),
{
    if s.len() != 0 {
        lemma_dash_count_none(s.drop_last());
    }
}

/// Splitting at a dash position splits the dash count.
pub proof fn lemma_dash_count_split(s: Seq<char>, p: int)
    requires
        0 <= p < s.len(),
        s[p] == '-',
    ensures
        dash_count(s) == dash_count(s.take(p)) + 1 + dash_count(s.skip(p + 1)),
{
    assert(s =~= s.take(p) + seq![s[p]] + s.skip(p + 1));
    lemma_dash_count_add(s.take(p) + seq![s[p]], s.skip(p + 1));
    lemma_dash_count_add(s.take(p), seq![s[p]]);
    assert(dash_count(seq![s[p]]) == 1) by {
        let u = seq![s[p]];
        assert(u.last() == '-');
        assert(u.drop_last() =~= Seq::<char>::empty());
        assert(dash_count(Seq::<char>::empty()) == 0);
        assert(dash_count(u.drop_last()) == 0);
    }
}

/// A scan that saw no dash before `p`, and a dash (or the end) at `p`,
/// has found `first_dash`.
pub proof fn lemma_first_dash_at(s: Seq<char>, p: int)
    requires
        0 <= p <= s.len(),
        forall|i: int| 0 <= i < p ==> s[i] != '-',
        p < s.len() ==> s[p] == '-',
    ensures
        first_dash(s) == p,
    decreases s.len(),
{
    if s.len() != 0 && s[0] != '-' {
        let t = s.skip(1);
        assert forall|i: int| 0 <= i < p - 1 implies t[i] != '-' by {
            assert(t[i] == s[i + 1]);
        }
        assert(p - 1 < t.len() ==> t[p - 1] == '-');
        lemma_first_dash_at(t, p - 1);
    }
}

/// The match pattern for a whole year: the year field verbatim, any
/// month, any day.
pub open spec fn year_pattern(s: Seq<char>) -> Seq<char> {
    year_field(s) + seq!['-', '_', '_', '-', '_', '_']
}

/// The match pattern for one month: year and month fields verbatim, any
/// day.
pub open spec fn month_pattern(s: Seq<char>) -> Seq<char> {
    year_field(s) + seq!['-'] + month_field(s) + seq!['-', '_', '_']
}

/// First `-` at or after `from`, if any.
pub(crate) fn find_dash(s: &str, from: usize) -> (r: Option<usize>)
    requires
        from <= s@.len(),
    ensures
        r matches Some(p) ==> from <= p < s@.len() && s@[p as int] == '-' && (forall|j: int|
            from <= j < p ==> s@[j] != '-'),
        r is None ==> forall|j: int| from <= j < s@.len() ==> s@[j] != '-',
{
    let n = s.unicode_len();
    let mut i = from;
    while i < n
        invariant
            from <= i <= n,
            n == s@.len(),
            forall|j: int| from <= j < i ==> s@[j] != '-',
        decreases n - i,
    {
        if s.get_char(i) == '-' {
            return Some(i);
        }
        i = i + 1;
    }
    None
}

/// Resolves the match pattern for the period that contains
/// `selected_date`, at the granularity `report_type`.
///
/// The anchor date must consist of exactly three dash-separated fields;
/// any other shape is rejected as invalid input.  The fields themselves
/// are kept verbatim.
pub fn date_selector(selected_date: &str, report_type: ReportType) -> (r: Result<
    String,
    ReportError,
>)
    ensures
        r is Ok <==> dash_count(selected_date@) == 2,
        r matches Ok(p) ==> (report_type == ReportType::YEAR ==> p@ == year_pattern(
            selected_date@,
        )) && (report_type == ReportType::MONTH ==> p@ == month_pattern(selected_date@)),
        r matches Err(e) ==> e == ReportError::InvalidInput,
{
    let ghost s = selected_date@;
    let n = selected_date.unicode_len();
    let d1 = match find_dash(selected_date, 0) {
        Some(p) => p,
        None => {
            proof {
                lemma_dash_count_none(s);
            }
            return Err(ReportError::InvalidInput);
        },
    };
    let d2 = match find_dash(selected_date, d1 + 1) {
        Some(p) => p,
        None => {
            proof {
                lemma_dash_count_split(s, d1 as int);
                lemma_dash_count_none(s.take(d1 as int));
                lemma_dash_count_none(s.skip(d1 as int + 1));
            }
            return Err(ReportError::InvalidInput);
        },
    };
    proof {
        lemma_dash_count_split(s, d1 as int);
        lemma_dash_count_none(s.take(d1 as int));
        lemma_dash_count_split(s.skip(d1 as int + 1), d2 - d1 - 1);
        lemma_dash_count_none(s.skip(d1 as int + 1).take(d2 - d1 - 1));
        assert(s.skip(d1 as int + 1).skip(d2 - d1) =~= s.skip(d2 as int + 1));
    }
    if let Some(d3) = find_dash(selected_date, d2 + 1) {
        proof {
            lemma_dash_count_split(s.skip(d2 as int + 1), d3 - d2 - 1);
            lemma_dash_count_nonneg(s.skip(d2 as int + 1).take(d3 - d2 - 1));
            lemma_dash_count_nonneg(s.skip(d2 as int + 1).skip(d3 - d2));
        }
        return Err(ReportError::InvalidInput);
    }
    proof {
        lemma_dash_count_none(s.skip(d2 as int + 1));
        lemma_first_dash_at(s, d1 as int);
        let after = s.skip(d1 as int + 1);
        assert forall|j: int| 0 <= j < d2 - d1 - 1 implies after[j] != '-' by {
            assert(after[j] == s[d1 + 1 + j]);
        }
        lemma_first_dash_at(after, d2 - d1 - 1);
        assert(year_field(s) =~= s.subrange(0, d1 as int));
        assert(month_field(s) =~= s.subrange(d1 as int + 1, d2 as int));
    }
    let year_s = selected_date.substring_char(0, d1);
    match report_type {
        ReportType::YEAR => {
            let mut p = year_s.to_owned();
            p.append("-__-__");
            proof {
                reveal_strlit("-__-__");
                assert(("-__-__")@ =~= seq!['-', '_', '_', '-', '_', '_']);
                assert(p@ =~= year_pattern(s));
            }
            Ok(p)
        },
        ReportType::MONTH => {
            let month_s = selected_date.substring_char(d1 + 1, d2);
            let mut p = year_s.to_owned();
            p.append("-");
            p.append(month_s);
            p.append("-__");
            proof {
                reveal_strlit("-");
                reveal_strlit("-__");
                assert(("-")@ =~= seq!['-']);
                assert(("-__")@ =~= seq!['-', '_', '_']);
                assert(p@ =~= month_pattern(s));
            }
            Ok(p)
        },
    }
}

pub open spec fn is_digit(c: char) -> bool {
    48 <= c as int <= 57
}

/// A non-empty, all-digit field.
pub open spec fn is_digits(s: Seq<char>) -> bool {
    s.len() > 0 && forall|i: int| 0 <= i < s.len() ==> is_digit(#[trigger] s[i])
}

/// The number a digit string denotes, most significant digit first.
pub open spec fn digits_val(s: Seq<char>) -> int
    decreases s.len(),
{
    if s.len() == 0 {
        0
    } else {
        digits_val(s.drop_last()) * 10 + (s.last() as int - 48)
    }
}

pub proof fn lemma_digits_val_bound4(s: Seq<char>)
    requires
        forall|i: int| 0 <= i < s.len() ==> is_digit(#[trigger] s[i]),
        s.len() <= 4,
    ensures
        0 <= digits_val(s) <= 9999,
        s.len() <= 3 ==> digits_val(s) <= 999,
        s.len() <= 2 ==> digits_val(s) <= 99,
        s.len() <= 1 ==> digits_val(s) <= 9,
    decreases s.len(),
{
    if s.len() != 0 {
        lemma_digits_val_bound4(s.drop_last());
    }
}

pub open spec fn is_leap_year(y: int) -> bool {
    (y % 4 == 0 && y % 100 != 0) || y % 400 == 0
}

/// Length in days of month `m` of year `y` in the proleptic Gregorian
/// calendar.
pub open spec fn days_in_month(y: int, m: int) -> int
    recommends
        1 <= m <= 12,
{
    if m == 2 {
        if is_leap_year(y) {
            29
        } else {
            28
        }
    } else if m == 4 || m == 6 || m == 9 || m == 11 {
        30
    } else {
        31
    }
}

/// Parses the digit characters of `s` at `[from, to)` as a number.
fn parse_digits(s: &str, from: usize, to: usize) -> (v: u32)
    requires
        from < to <= s@.len(),
        to - from <= 4,
        forall|i: int| from <= i < to ==> is_digit(#[trigger] s@[i]),
    ensures
        v == digits_val(s@.subrange(from as int, to as int)),
{
    let ghost f = s@.subrange(from as int, to as int);
    let mut v: u32 = 0;
    let mut i = from;
    while i < to
        invariant
            from <= i <= to <= s@.len(),
            to - from <= 4,
            forall|j: int| from <= j < to ==> is_digit(#[trigger] s@[j]),
            f == s@.subrange(from as int, to as int),
            v == digits_val(f.take(i - from)),
        decreases to - i,
    {
        proof {
            lemma_digits_val_bound4(f.take(i - from));
            assert(f.take(i - from + 1).drop_last() =~= f.take(i - from));
            assert(f.take(i - from + 1).last() == s@[i as int]);
        }
        let c = s.get_char(i);
        v = v * 10 + (c as u32 - 48);
        i = i + 1;
    }
    proof {
        assert(f.take(to - from) =~= f);
    }
    v
}

/// Counts the calendar days of the month that `date` names.
///
/// `date` is any string whose first two dash-separated fields are a year
/// and a month, such as a resolved month pattern `YYYY-MM-__` or a plain
/// `YYYY-MM`.  The fields must be numeric, with the month between 1
/// and 12.
pub fn get_days_from_month(date: &str) -> (r: i64)
    requires
        first_dash(date@) < date@.len(),
        is_digits(year_field(date@)),
        year_field(date@).len() <= 4,
        is_digits(month_field(date@)),
        month_field(date@).len() <= 2,
        1 <= digits_val(month_field(date@)) <= 12,
    ensures
        r == days_in_month(digits_val(year_field(date@)), digits_val(month_field(date@))),
{
    let ghost s = date@;
    let n = date.unicode_len();
    let d1 = match find_dash(date, 0) {
        Some(p) => p,
        None => {
            proof {
                lemma_first_dash_at(s, s.len() as int);
                assert(false);
            }
            0
        },
    };
    proof {
        lemma_first_dash_at(s, d1 as int);
    }
    let mend = match find_dash(date, d1 + 1) {
        Some(q) => q,
        None => n,
    };
    proof {
        let after = s.skip(d1 as int + 1);
        assert forall|j: int| 0 <= j < mend - d1 - 1 implies after[j] != '-' by {
            assert(after[j] == s[d1 + 1 + j]);
        }
        assert((mend - d1 - 1) < after.len() ==> after[mend - d1 - 1] == '-');
        lemma_first_dash_at(after, mend - d1 - 1);
        assert(year_field(s) =~= s.subrange(0, d1 as int));
        assert(month_field(s) =~= s.subrange(d1 as int + 1, mend as int));
        assert forall|i: int| 0 <= i < d1 implies is_digit(#[trigger] s[i]) by {
            assert(is_digit(year_field(s)[i]));
        }
        assert forall|i: int| d1 + 1 <= i < mend implies is_digit(#[trigger] s[i]) by {
            assert(is_digit(month_field(s)[i - d1 - 1]));
        }
    }
    let year = parse_digits(date, 0, d1);
    let month = parse_digits(date, d1 + 1, mend);
    let leap = (year % 4 == 0 && year % 100 != 0) || year % 400 == 0;
    if month == 2 {
        if leap {
            29
        } else {
            28
        }
    } else if month == 4 || month == 6 || month == 9 || month == 11 {
        30
    } else {
        31
    }
}

/// A month report needs numeric year and month fields: four digits at
/// most for the year, two at most for the month, month between 1
/// and 12.
pub open spec fn month_fields_ok(s: Seq<char>) -> bool {
    &&& is_digits(year_field(s))
    &&& year_field(s).len() <= 4
    &&& is_digits(month_field(s))
    &&& month_field(s).len() <= 2
    &&& 1 <= digits_val(month_field(s)) <= 12
}

fn all_digits(s: &str) -> (b: bool)
    ensures
        b == forall|i: int| 0 <= i < s@.len() ==> is_digit(#[trigger] s@[i]),
{
    let n = s.unicode_len();
    let mut i: usize = 0;
    while i < n
        invariant
            i <= n,
            n == s@.len(),
            forall|j: int| 0 <= j < i ==> is_digit(#[trigger] s@[j]),
        decreases n - i,
    {
        let c = s.get_char(i);
        let u = c as u32;
        if u < 48 || u > 57 {
            assert(!is_digit(s@[i as int]));
            return false;
        }
        i = i + 1;
    }
    true
}

/// Whether the anchor date's year and month fields satisfy
/// [`month_fields_ok`].
pub fn month_fields_check(s: &str) -> (b: bool)
    ensures
        b == month_fields_ok(s@),
{
    let (y, mo) = split_year_month(s);
    let ylen = y.as_str().unicode_len();
    if ylen == 0 || ylen > 4 {
        return false;
    }
    if !all_digits(y.as_str()) {
        return false;
    }
    let mlen = mo.as_str().unicode_len();
    if mlen == 0 || mlen > 2 {
        return false;
    }
    if !all_digits(mo.as_str()) {
        return false;
    }
    let mv = parse_digits(mo.as_str(), 0, mlen);
    proof {
        assert(mo@.subrange(0, mlen as int) =~= mo@);
    }
    1 <= mv && mv <= 12
}

/// Extracts the year and month fields of a date or pattern string.
///
/// With no dash the whole string is the year and the month is empty.
pub fn split_year_month(s: &str) -> (r: (String, String))
    ensures
        r.0@ == year_field(s@),
        r.1@ == month_field(s@),
{
    let ghost sv = s@;
    let n = s.unicode_len();
    match find_dash(s, 0) {
        None => {
            proof {
                lemma_first_dash_at(sv, sv.len() as int);
                assert(year_field(sv) =~= sv);
                assert(month_field(sv) =~= Seq::<char>::empty());
            }
            (s.to_owned(), String::new())
        },
        Some(d1) => {
            proof {
                lemma_first_dash_at(sv, d1 as int);
            }
            let mend = match find_dash(s, d1 + 1) {
                Some(q) => q,
                None => n,
            };
            proof {
                let after = sv.skip(d1 as int + 1);
                assert forall|j: int| 0 <= j < mend - d1 - 1 implies after[j] != '-' by {
                    assert(after[j] == sv[d1 + 1 + j]);
                }
                assert((mend - d1 - 1) < after.len() ==> after[mend - d1 - 1] == '-');
                lemma_first_dash_at(after, mend - d1 - 1);
                assert(year_field(sv) =~= sv.subrange(0, d1 as int));
                assert(month_field(sv) =~= sv.subrange(d1 as int + 1, mend as int));
            }
            let y = s.substring_char(0, d1).to_owned();
            let m = s.substring_char(d1 + 1, mend).to_owned();
            (y, m)
        },
    }
}

/// The character for the decimal digit `d`.
pub open spec fn digit_char(d: int) -> char
    recommends
        0 <= d <= 9,
{
    if d == 0 {
        '0'
    } else if d == 1 {
        '1'
    } else if d == 2 {
        '2'
    } else if d == 3 {
        '3'
    } else if d == 4 {
        '4'
    } else if d == 5 {
        '5'
    } else if d == 6 {
        '6'
    } else if d == 7 {
        '7'
    } else if d == 8 {
        '8'
    } else {
        '9'
    }
}

/// `n` rendered as exactly two decimal digits, zero-padded.
pub open spec fn two_digit_seq(n: int) -> Seq<char>
    recommends
        0 <= n < 100,
{
    seq![digit_char(n / 10), digit_char(n % 10)]
}

fn digit_str(d: u32) -> (r: &'static str)
    requires
        d < 10,
    ensures
        r@ == seq![digit_char(d as int)],
{
    proof {
        reveal_strlit("0");
        reveal_strlit("1");
        reveal_strlit("2");
        reveal_strlit("3");
        reveal_strlit("4");
        reveal_strlit("5");
        reveal_strlit("6");
        reveal_strlit("7");
        reveal_strlit("8");
        reveal_strlit("9");
    }
    match d {
        0 => "0",
        1 => "1",
        2 => "2",
        3 => "3",
        4 => "4",
        5 => "5",
        6 => "6",
        7 => "7",
        8 => "8",
        _ => "9",
    }
}

/// Appends `n` to `out` as exactly two decimal digits.
pub fn push_two_digit(out: &mut String, n: u32)
    requires
        n < 100,
    ensures
        final(out)@ == old(out)@ + two_digit_seq(n as int),
{
    out.append(digit_str(n / 10));
    out.append(digit_str(n % 10));
    proof {
        assert(final(out)@ =~= old(out)@ + two_digit_seq(n as int));
    }
}

} // verus!
