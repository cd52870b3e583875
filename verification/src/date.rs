//! The calendar date that is the main component of a chronologic version:
//! validation against real calendar rules, `YYYY.MM.DD` parsing and
//! formatting, and the lexicographic order on `(year, month, day)`.

use vstd::prelude::*;

use crate::digits::{
    all_digits, lemma_dec_chars_len, lemma_dec_chars_val, lemma_digits_val_nonneg,
    padded_dec_chars, parse_dec, pow10, push_dec_padded, spec_parse_dec,
};
use crate::error::{InvalidDateError, InvalidMonthError, ParseDateError};

verus! {

/// The mathematical content of a [`Date`]: its three fields as plain
/// integers.
#[verifier::ext_equal]
pub struct DateView {
    /// The year component.
    pub year: int,
    /// The month component.
    pub month: int,
    /// The day component.
    pub day: int,
}

/// Leap years of the proleptic Gregorian calendar: divisible by four,
/// except centuries not divisible by four hundred.
pub open spec fn is_leap_year(y: int) -> bool {
    let a = if y >= 0 {
        y
    } else {
        -y
    };
    a % 4 == 0 && (a % 100 != 0 || a % 400 == 0)
}

/// Number of days in month `m` of year `y` (meaningful for `1 <= m <= 12`).
pub open spec fn days_in_month(y: int, m: int) -> int {
    if m == 2 {
        if is_leap_year(y) {
            29
        } else {
            28
        }
    } else if m == 4 || m == 6 || m == 9 || m == 11 {
        30
    } else {
        31
    }
}

/// Whether `(y, m, d)` denotes a real calendar day within the supported
/// year range.
pub open spec fn valid_date(y: int, m: int, d: int) -> bool {
    &&& -9999 <= y <= 9999
    &&& 1 <= m <= 12
    &&& 1 <= d <= days_in_month(y, m)
}

/// The date which is the main component of a chronologic version.
/// Always denotes a real calendar day; see [`Date::wf`].
#[derive(Clone, Copy, Debug, PartialEq, Eq, Structural, Hash)]
pub struct Date {
    /// The year, in `-9999..=9999`.
    year: i32,
    /// The month, in `1..=12`.
    month: u8,
    /// The day, valid for the year and month.
    day: u8,
}

impl View for Date {
    type V = DateView;

    closed spec fn view(&self) -> DateView {
        DateView { year: self.year as int, month: self.month as int, day: self.day as int }
    }
}

impl Date {
    /// The date denotes a real calendar day. Every `Date` this library
    /// hands out satisfies this.
    pub open spec fn wf(&self) -> bool {
        valid_date(self@.year, self@.month, self@.day)
    }

    /// Builds the date `(year, month, day)`, or `None` when the components
    /// do not denote a real calendar day.
    pub fn new(year: i32, month: u8, day: u8) -> (r: Option<Date>)
        ensures
            r is Some <==> valid_date(year as int, month as int, day as int),
            match r {
                Some(d) => d@ == (DateView {
                    year: year as int,
                    month: month as int,
                    day: day as int,
                }) && d.wf(),
                None => true,
            },
    {
        if year < -9999 || year > 9999 || month < 1 || month > 12 {
            return None;
        }
        if day < 1 || day > days_in_month_exec(year, month) {
            return None;
        }
        Some(Date { year, month, day })
    }

    /// Get the year component of the date.
    pub fn year(&self) -> (r: i32)
        ensures
            r == self@.year,
    {
        self.year
    }

    /// Get the month component of the date.
    pub fn month(&self) -> (r: u8)
        ensures
            r == self@.month,
    {
        self.month
    }

    /// Get the day component of the date.
    pub fn day(&self) -> (r: u8)
        ensures
            r == self@.day,
    {
        self.day
    }

    /// Parses `YEAR.MONTH.DAY`, yielding exactly what [`spec_date_parse`]
    /// says for the input.
    pub fn parse(s: &str) -> (r: Result<Date, ParseDateError>)
        ensures
            match r {
                Ok(d) => spec_date_parse(s@) == Ok::<DateView, ParseDateError>(d@) && d.wf(),
                Err(e) => spec_date_parse(s@) == Err::<DateView, ParseDateError>(e),
            },
    {
        let n = s.unicode_len();
        let dot1 = match find_char(s, 0, n, '.') {
            Some(i) => i,
            None => {
                proof {
                    lemma_find_char_none(s@, '.');
                }
                return Err(ParseDateError::MissingMonthSeparator);
            },
        };
        proof {
            lemma_find_char_unique(s@, '.', dot1 as int);
        }
        let dot2 = match find_char(s, dot1 + 1, n, '.') {
            Some(i) => i,
            None => {
                proof {
                    let rest = s@.skip(dot1 + 1);
                    assert(forall|j: int| 0 <= j < rest.len() ==> rest[j] != '.') by {
                        assert(forall|j: int|
                            0 <= j < rest.len() ==> rest[j] == s@[dot1 + 1 + j]);
                    }
                    lemma_find_char_none(rest, '.');
                }
                return Err(ParseDateError::MissingDaySeparator);
            },
        };
        proof {
            let rest = s@.skip(dot1 + 1);
            assert(rest[dot2 - dot1 - 1] == s@[dot2 as int] && forall|j: int|
                0 <= j < dot2 - dot1 - 1 ==> #[trigger] rest[j] == s@[dot1 + 1 + j]);
            assert(spec_find_char(rest, '.') == Some(dot2 - dot1 - 1)) by {
                lemma_find_char_unique(rest, '.', dot2 - dot1 - 1);
            }
            assert(rest.subrange(0, dot2 - dot1 - 1) =~= s@.subrange(dot1 + 1, dot2 as int));
            assert(rest.skip(dot2 - dot1 - 1 + 1) =~= s@.subrange(dot2 + 1, n as int));
        }
        date_from_parts(s, dot1, dot2, n)
    }

    /// Formats the date as `YYYY.MM.DD`: the year zero-padded to four
    /// digits (a sign first when negative), month and day to two.
    pub fn format(&self) -> (r: String)
        requires
            self.wf(),
        ensures
            r@ == spec_date_chars(self@),
    {
        let mut out = String::new();
        if self.year >= 0 {
            push_dec_padded(&mut out, self.year as u32, 4);
        } else {
            out.append("-");
            proof {
                reveal_strlit("-");
                assert(Seq::<char>::empty() + "-"@ =~= seq!['-']);
            }
            push_dec_padded(&mut out, (-self.year) as u32, 3);
        }
        out.append(".");
        push_dec_padded(&mut out, self.month as u32, 2);
        out.append(".");
        push_dec_padded(&mut out, self.day as u32, 2);
        proof {
            reveal_strlit(".");
            assert("."@ =~= seq!['.']);
            assert(out@ =~= spec_date_chars(self@));
        }
        out
    }
}

/// The characters of a formatted date.
pub open spec fn spec_date_chars(d: DateView) -> Seq<char> {
    year_chars(d.year) + seq!['.'] + padded_dec_chars(d.month, 2) + seq!['.'] + padded_dec_chars(
        d.day,
        2,
    )
}

/// The characters of a formatted year: zero-padded to four digits when
/// non-negative, else a minus sign and the magnitude padded to three.
pub open spec fn year_chars(y: int) -> Seq<char> {
    if y >= 0 {
        padded_dec_chars(y, 4)
    } else {
        seq!['-'] + padded_dec_chars(-y, 3)
    }
}

/// Index of the first occurrence of `c` in `s`, if any.
pub open spec fn spec_find_char(s: Seq<char>, c: char) -> Option<int>
    decreases s.len(),
{
    if s.len() == 0 {
        None
    } else if s[0] == c {
        Some(0)
    } else {
        match spec_find_char(s.skip(1), c) {
            None => None,
            Some(i) => Some(i + 1),
        }
    }
}

/// `spec_find_char` returns the position whose earlier characters all
/// differ from `c`; conversely such a position determines it.
pub proof fn lemma_find_char_unique(s: Seq<char>, c: char, i: int)
    requires
        0 <= i < s.len(),
        s[i] == c,
        forall|j: int| 0 <= j < i ==> s[j] != c,
    ensures
        spec_find_char(s, c) == Some(i),
    decreases i,
{
    if i > 0 {
        lemma_find_char_unique(s.skip(1), c, i - 1);
    }
}

/// When no character of `s` is `c`, `spec_find_char` finds nothing.
pub proof fn lemma_find_char_none(s: Seq<char>, c: char)
    requires
        forall|j: int| 0 <= j < s.len() ==> s[j] != c,
    ensures
        spec_find_char(s, c) == None::<int>,
    decreases s.len(),
{
    if s.len() > 0 {
        lemma_find_char_none(s.skip(1), c);
    }
}

/// Scans `s[from..to]` for `c`, returning the first position holding it.
fn find_char(s: &str, from: usize, to: usize, c: char) -> (r: Option<usize>)
    requires
        from <= to <= s@.len(),
    ensures
        match r {
            Some(i) => from <= i < to && s@[i as int] == c && forall|j: int|
                from <= j < i ==> s@[j] != c,
            None => forall|j: int| from <= j < to ==> s@[j] != c,
        },
{
    let mut i: usize = from;
    while i < to
        invariant
            from <= i <= to <= s@.len(),
            forall|j: int| from <= j < i ==> s@[j] != c,
        decreases to - i,
    {
        if s.get_char(i) == c {
            return Some(i);
        }
        i = i + 1;
    }
    None
}

/// What parsing `YEAR.MONTH.DAY` yields: the text split at its first two
/// dots, each group read as a non-negative integer, the month checked
/// against `1..=12`, then the whole checked as a real calendar day.
pub open spec fn spec_date_parse(s: Seq<char>) -> Result<DateView, ParseDateError> {
    match spec_find_char(s, '.') {
        None => Err(ParseDateError::MissingMonthSeparator),
        Some(i) => {
            let rest = s.skip(i + 1);
            match spec_find_char(rest, '.') {
                None => Err(ParseDateError::MissingDaySeparator),
                Some(j) => spec_date_from_parts(
                    s.subrange(0, i),
                    rest.subrange(0, j),
                    rest.skip(j + 1),
                ),
            }
        },
    }
}

/// Reads the three groups of a date, in order: a bad integer anywhere is
/// [`ParseDateError::InvalidInt`]; a month outside `1..=12` is
/// [`ParseDateError::InvalidMonth`]; a triple that is no real calendar day
/// is [`ParseDateError::InvalidDate`].
pub open spec fn spec_date_from_parts(ys: Seq<char>, ms: Seq<char>, ds: Seq<char>) -> Result<
    DateView,
    ParseDateError,
> {
    match spec_parse_dec(ys, i32::MAX as int) {
        Err(e) => Err(ParseDateError::InvalidInt(e)),
        Ok(y) => match spec_parse_dec(ms, u8::MAX as int) {
            Err(e) => Err(ParseDateError::InvalidInt(e)),
            Ok(m) => if !(1 <= m <= 12) {
                Err(ParseDateError::InvalidMonth(InvalidMonthError { month: m as u8 }))
            } else {
                match spec_parse_dec(ds, u8::MAX as int) {
                    Err(e) => Err(ParseDateError::InvalidInt(e)),
                    Ok(d) => if valid_date(y, m, d) {
                        Ok(DateView { year: y, month: m, day: d })
                    } else {
                        Err(
                            ParseDateError::InvalidDate(
                                InvalidDateError { year: y as i32, month: m as u8, day: d as u8 },
                            ),
                        )
                    },
                }
            },
        },
    }
}

/// Reads the groups `s[0..dot1]`, `s[dot1+1..dot2]` and `s[dot2+1..n]` as
/// year, month and day.
fn date_from_parts(s: &str, dot1: usize, dot2: usize, n: usize) -> (r: Result<
    Date,
    ParseDateError,
>)
    requires
        dot1 < dot2 < n == s@.len(),
    ensures
        ({
            let sp = spec_date_from_parts(
                s@.subrange(0, dot1 as int),
                s@.subrange(dot1 + 1, dot2 as int),
                s@.subrange(dot2 + 1, n as int),
            );
            match r {
                Ok(d) => sp == Ok::<DateView, ParseDateError>(d@) && d.wf(),
                Err(e) => sp == Err::<DateView, ParseDateError>(e),
            }
        }),
{
    let year = match parse_dec(s, 0, dot1, i32::MAX as u64) {
        Ok(v) => v as i32,
        Err(e) => {
            return Err(ParseDateError::InvalidInt(e));
        },
    };
    let month = match parse_dec(s, dot1 + 1, dot2, u8::MAX as u64) {
        Ok(v) => v as u8,
        Err(e) => {
            return Err(ParseDateError::InvalidInt(e));
        },
    };
    if month < 1 || month > 12 {
        return Err(ParseDateError::InvalidMonth(InvalidMonthError { month }));
    }
    let day = match parse_dec(s, dot2 + 1, n, u8::MAX as u64) {
        Ok(v) => v as u8,
        Err(e) => {
            return Err(ParseDateError::InvalidInt(e));
        },
    };
    if year <= 9999 && 1 <= day && day <= days_in_month_exec(year, month) {
        Ok(Date { year, month, day })
    } else {
        Err(ParseDateError::InvalidDate(InvalidDateError { year, month, day }))
    }
}

/// Whether `year` is a leap year.
pub fn leap_year_exec(year: i32) -> (r: bool)
    requires
        -9999 <= year <= 9999,
    ensures
        r == is_leap_year(year as int),
{
    let a: u32 = if year >= 0 {
        year as u32
    } else {
        (-year) as u32
    };
    a % 4 == 0 && (a % 100 != 0 || a % 400 == 0)
}

/// Number of days in month `m` of year `y`.
pub fn days_in_month_exec(year: i32, month: u8) -> (r: u8)
    requires
        -9999 <= year <= 9999,
        1 <= month <= 12,
    ensures
        r == days_in_month(year as int, month as int),
{
    if month == 2 {
        if leap_year_exec(year) {
            29
        } else {
            28
        }
    } else if month == 4 || month == 6 || month == 9 || month == 11 {
        30
    } else {
        31
    }
}

/// Whatever text the date parser reads, success yields a real calendar day
/// with a non-negative year: the groups are digit runs, so no sign ever
/// enters a component.
pub proof fn lemma_date_parse_valid(s: Seq<char>)
    ensures
        match spec_date_parse(s) {
            Ok(d) => valid_date(d.year, d.month, d.day) && d.year >= 0,
            Err(_) => true,
        },
{
    if let Some(i) = spec_find_char(s, '.') {
        let rest = s.skip(i + 1);
        if let Some(j) = spec_find_char(rest, '.') {
            let ys = s.subrange(0, i);
            if ys.len() > 0 && all_digits(ys) {
                lemma_digits_val_nonneg(ys);
            }
        }
    }
}

/// Two dates are equal exactly when their views are: the view exposes the
/// three fields and nothing else.
pub proof fn lemma_date_eq_view(a: Date, b: Date)
    ensures
        (a == b) <==> (a@ == b@),
{
}

/// Today's calendar date, read from the system clock in UTC.
///
/// Relies on `time::OffsetDateTime::now_utc` and the accessors of
/// `time::Date`: such a date always denotes a real proleptic-Gregorian
/// calendar day with a year in `-9999..=9999`, a month in `1..=12` and a
/// day valid for the month, which is exactly [`Date::wf`].
#[verifier::external_body]
pub fn today() -> (d: Date)
    ensures
        d.wf(),
{
    let now = time::OffsetDateTime::now_utc().date();
    Date { year: now.year(), month: now.month() as u8, day: now.day() }
}

/// Three-way comparison of integers.
pub open spec fn spec_cmp3(a: int, b: int) -> core::cmp::Ordering {
    if a < b {
        core::cmp::Ordering::Less
    } else if a == b {
        core::cmp::Ordering::Equal
    } else {
        core::cmp::Ordering::Greater
    }
}

/// Dates order lexicographically over `(year, month, day)`.
pub open spec fn spec_date_cmp(a: DateView, b: DateView) -> core::cmp::Ordering {
    if a.year != b.year {
        spec_cmp3(a.year, b.year)
    } else if a.month != b.month {
        spec_cmp3(a.month, b.month)
    } else {
        spec_cmp3(a.day, b.day)
    }
}

impl Date {
    /// Three-way comparison: lexicographic over `(year, month, day)`.
    pub fn cmp(&self, other: &Self) -> (r: core::cmp::Ordering)
        ensures
            r == spec_date_cmp(self@, other@),
    {
        if self.year < other.year {
            core::cmp::Ordering::Less
        } else if self.year > other.year {
            core::cmp::Ordering::Greater
        } else if self.month < other.month {
            core::cmp::Ordering::Less
        } else if self.month > other.month {
            core::cmp::Ordering::Greater
        } else if self.day < other.day {
            core::cmp::Ordering::Less
        } else if self.day > other.day {
            core::cmp::Ordering::Greater
        } else {
            core::cmp::Ordering::Equal
        }
    }
}

impl PartialOrd for Date {
    fn partial_cmp(&self, other: &Self) -> (r: Option<core::cmp::Ordering>) {
        Some(self.cmp(other))
    }
}

impl vstd::std_specs::cmp::PartialOrdSpecImpl for Date {
    open spec fn obeys_partial_cmp_spec() -> bool {
        true
    }

    open spec fn partial_cmp_spec(&self, other: &Self) -> Option<core::cmp::Ordering> {
        Some(spec_date_cmp(self@, other@))
    }
}

/// The year, month and day of a formatted date stand at fixed positions:
/// the whole is ten characters for the years `0..=9999`.
pub proof fn lemma_date_chars_len(d: DateView)
    requires
        valid_date(d.year, d.month, d.day),
        d.year >= 0,
    ensures
        spec_date_chars(d).len() == 10,
        year_chars(d.year).len() == 4,
        padded_dec_chars(d.month, 2).len() == 2,
        padded_dec_chars(d.day, 2).len() == 2,
{
    assert(pow10(4) == 10000) by {
        assert(pow10(0) == 1);
        assert(pow10(1) == 10);
        assert(pow10(2) == 100);
        assert(pow10(3) == 1000);
    }
    assert(pow10(2) == 100) by {
        assert(pow10(0) == 1);
        assert(pow10(1) == 10);
    }
    lemma_dec_chars_len(d.year, 4, pow10(4));
    lemma_dec_chars_val(d.year);
    lemma_dec_chars_len(d.month, 2, pow10(2));
    lemma_dec_chars_val(d.month);
    lemma_dec_chars_len(d.day, 2, pow10(2));
    lemma_dec_chars_val(d.day);
}

} // verus!
