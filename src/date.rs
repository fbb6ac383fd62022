//! Calendar dates and their `YYYY-MM-DD` text form.

use chrono::Datelike;
use vstd::prelude::*;

verus! {

/// A calendar date in the proleptic Gregorian calendar, as plain numbers.
#[derive(Clone, Copy, Debug, PartialEq, Eq, Structural)]
pub struct CalendarDate {
    pub year: i32,
    pub month: u32,
    pub day: u32,
}

impl CalendarDate {
    /// Month and day lie in their calendar ranges.
    pub open spec fn valid(self) -> bool {
        1 <= self.month <= 12 && 1 <= self.day <= 31
    }

    /// Chronological order: by year, then month, then day.
    pub open spec fn before(self, other: CalendarDate) -> bool {
        self.year < other.year || (self.year == other.year && (self.month < other.month || (
        self.month == other.month && self.day < other.day)))
    }

    /// Whether this date comes strictly before `other`.
    pub fn before_exec(&self, other: &CalendarDate) -> (r: bool)
        ensures
            r == self.before(*other),
    {
        self.year < other.year || (self.year == other.year && (self.month < other.month || (
        self.month == other.month && self.day < other.day)))
    }
}

/// The pattern that `created` timestamps are read with: UTC, fractional
/// seconds optional and of any precision.
pub const TIMESTAMP_FORMAT: &'static str = "%Y-%m-%dT%H:%M:%S%.fZ";

/// The (year, month, day) of the timestamp `s` read with the strftime
/// pattern `fmt`, or `None` where `s` does not match it.
pub uninterp spec fn parsed_timestamp_date(s: Seq<char>, fmt: Seq<char>) -> Option<(i32, u32, u32)>;

/// Relies on `chrono::NaiveDateTime::parse_from_str`: the date part of the
/// timestamp, which depends on the two strings alone; chrono's month and day
/// lie in 1..=12 and 1..=31.
#[verifier::external_body]
fn parse_date_part(s: &str, fmt: &str) -> (r: Option<(i32, u32, u32)>)
    ensures
        r == parsed_timestamp_date(s@, fmt@),
        r matches Some((y, m, d)) ==> 1 <= m <= 12 && 1 <= d <= 31,
{
    match chrono::NaiveDateTime::parse_from_str(s, fmt) {
        Ok(t) => Some((t.year(), t.month(), t.day())),
        Err(_) => None,
    }
}

/// Relies on `chrono::Utc::now`: the current UTC date, whose month and day lie
/// in 1..=12 and 1..=31.
#[verifier::external_body]
fn utc_today_parts() -> (r: (i32, u32, u32))
    ensures
        1 <= r.1 <= 12,
        1 <= r.2 <= 31,
{
    let now = chrono::Utc::now();
    (now.year(), now.month(), now.day())
}

/// The date of a `created` timestamp, where it matches [`TIMESTAMP_FORMAT`].
pub open spec fn parsed_created(s: Seq<char>) -> Option<CalendarDate> {
    match parsed_timestamp_date(s, TIMESTAMP_FORMAT@) {
        Some((y, m, d)) => Some(CalendarDate { year: y, month: m, day: d }),
        None => None,
    }
}

/// The character of a decimal digit.
pub open spec fn digit_char(d: int) -> char {
    if d <= 0 {
        '0'
    } else if d == 1 {
        '1'
    } else if d == 2 {
        '2'
    } else if d == 3 {
        '3'
    } else if d == 4 {
        '4'
    } else if d == 5 {
        '5'
    } else if d == 6 {
        '6'
    } else if d == 7 {
        '7'
    } else if d == 8 {
        '8'
    } else {
        '9'
    }
}

/// The decimal digits of `n`, without leading zeros.
pub open spec fn decimal(n: nat) -> Seq<char>
    decreases n,
{
    if n < 10 {
        seq![digit_char(n as int)]
    } else {
        decimal(n / 10).push(digit_char((n % 10) as int))
    }
}

/// The decimal digits of `n`, with zeros in front up to `width` characters.
pub open spec fn padded(n: nat, width: nat) -> Seq<char> {
    let ds = decimal(n);
    if ds.len() < width {
        Seq::new((width - ds.len()) as nat, |i: int| '0') + ds
    } else {
        ds
    }
}

/// The year as written in a date key: four digits for years 0 to 9999,
/// otherwise an explicit sign before at least four digits.
pub open spec fn year_text(y: int) -> Seq<char> {
    if 0 <= y <= 9999 {
        padded(y as nat, 4)
    } else if y > 9999 {
        seq!['+'] + padded(y as nat, 4)
    } else {
        seq!['-'] + padded((-y) as nat, 4)
    }
}

/// The date key `YYYY-MM-DD` of a date.
pub open spec fn date_key(d: CalendarDate) -> Seq<char> {
    year_text(d.year as int) + seq!['-'] + padded(d.month as nat, 2) + seq!['-'] + padded(
        d.day as nat,
        2,
    )
}

/// Relies on `String::push`: appends one character.
#[verifier::external_body]
pub(crate) fn push_char(s: &mut String, c: char)
    ensures
        final(s)@ == old(s)@.push(c),
{
    s.push(c)
}

fn digit(d: u32) -> (c: char)
    requires
        d < 10,
    ensures
        c == digit_char(d as int),
{
    if d == 0 {
        '0'
    } else if d == 1 {
        '1'
    } else if d == 2 {
        '2'
    } else if d == 3 {
        '3'
    } else if d == 4 {
        '4'
    } else if d == 5 {
        '5'
    } else if d == 6 {
        '6'
    } else if d == 7 {
        '7'
    } else if d == 8 {
        '8'
    } else {
        '9'
    }
}

/// Appends the decimal digits of `n`, zero-padded to `width` characters.
fn push_padded(out: &mut String, n: u32, width: usize)
    ensures
        final(out)@ == old(out)@ + padded(n as nat, width as nat),
{
    let mut rev: Vec<char> = Vec::new();
    let mut m: u32 = n;
    let ghost mut tail: Seq<char> = Seq::empty();
    while m >= 10
        invariant
            decimal(n as nat) == decimal(m as nat) + tail,
            rev@.len() == tail.len(),
            forall|j: int| 0 <= j < tail.len() ==> tail[j] == rev@[rev@.len() - 1 - j],
        decreases m,
    {
        let c = digit(m % 10);
        proof {
            let d = decimal(m as nat);
            assert(d == decimal((m / 10) as nat).push(c));
            assert(decimal((m / 10) as nat) + seq![c] + tail =~= decimal((m / 10) as nat) + (
            seq![c] + tail));
            assert(d + tail =~= decimal((m / 10) as nat) + seq![c] + tail);
            tail = seq![c] + tail;
        }
        rev.push(c);
        m = m / 10;
    }
    let c = digit(m);
    proof {
        assert(decimal(m as nat) =~= seq![c]);
        tail = seq![c] + tail;
    }
    rev.push(c);
    assert(decimal(n as nat) =~= tail);
    let count = rev.len();
    let ghost start = out@;
    let mut k: usize = count;
    while k < width
        invariant
            count <= k <= width || (k == count && width < count),
            out@ == start + Seq::new((k - count) as nat, |i: int| '0'),
        decreases width - k,
    {
        push_char(out, '0');
        assert(out@ =~= start + Seq::new((k + 1 - count) as nat, |i: int| '0'));
        k = k + 1;
    }
    let ghost zeros = out@;
    let mut i: usize = count;
    while i > 0
        invariant
            i <= count,
            count == rev@.len(),
            count == tail.len(),
            forall|j: int| 0 <= j < tail.len() ==> tail[j] == rev@[rev@.len() - 1 - j],
            out@ == zeros + tail.subrange(0, (count - i) as int),
        decreases i,
    {
        push_char(out, rev[i - 1]);
        assert(out@ =~= zeros + tail.subrange(0, (count - i + 1) as int));
        i = i - 1;
    }
    assert(tail.subrange(0, count as int) =~= tail);
    let ghost pad_len: nat = if width < count {
        0
    } else {
        (width - count) as nat
    };
    assert(zeros =~= start + Seq::new(pad_len, |i: int| '0'));
    assert(out@ =~= old(out)@ + padded(n as nat, width as nat));
}

impl CalendarDate {
    /// The date of a `created` timestamp read with [`TIMESTAMP_FORMAT`], or
    /// `None` where it does not match.
    pub fn parse_timestamp(s: &str) -> (r: Option<CalendarDate>)
        ensures
            r == parsed_created(s@),
            r matches Some(d) ==> d.valid(),
    {
        match parse_date_part(s, TIMESTAMP_FORMAT) {
            Some((y, m, d)) => Some(CalendarDate { year: y, month: m, day: d }),
            None => None,
        }
    }

    /// The current date in UTC.
    pub fn today() -> (r: CalendarDate)
        ensures
            r.valid(),
    {
        let (y, m, d) = utc_today_parts();
        CalendarDate { year: y, month: m, day: d }
    }

    /// The date key `YYYY-MM-DD` of this date.
    pub fn key(&self) -> (r: String)
        ensures
            r@ == date_key(*self),
    {
        let mut out = String::new();
        let y = self.year;
        if 0 <= y && y <= 9999 {
            push_padded(&mut out, y as u32, 4);
        } else if y > 9999 {
            push_char(&mut out, '+');
            push_padded(&mut out, y as u32, 4);
        } else {
            push_char(&mut out, '-');
            let mag: u32 = if y == i32::MIN {
                2147483648u32
            } else {
                (-y) as u32
            };
            push_padded(&mut out, mag, 4);
        }
        push_char(&mut out, '-');
        push_padded(&mut out, self.month, 2);
        push_char(&mut out, '-');
        push_padded(&mut out, self.day, 2);
        assert(out@ =~= date_key(*self));
        out
    }
}

} // verus!
