//! Chronological ordering of a log whose lines start with a
//! `[dd/mm/yyyy - HH:MM:SS]` timestamp.

use vstd::prelude::*;
use chrono::{Datelike, Timelike};
use crate::sort::{
    index_range, key_before, lemma_map_same_elements, lemma_stable_order_exists,
    lemma_stable_order_in_range, stable_order, stable_order_of,
};
use crate::text::{
    chars_of, copy_range, decimal, push_char, push_chars, push_decimal, split_lines, split_lines_of,
    string_from_chars,
};

verus! {

/// The options of the `order` command.
pub struct OrderArgs {
    /// The log file to sort.
    pub input: String,
    /// Where to write the sorted log; standard output when absent.
    pub output: Option<String>,
}

/// The fields of a parsed timestamp, as chrono reports them: a leap second
/// (`:60`) reads as second 59 with a nanosecond count of one second.
#[derive(Clone, Copy, Debug, PartialEq, Eq, Structural)]
pub struct LogTime {
    pub year: i32,
    pub month: u32,
    pub day: u32,
    pub hour: u32,
    pub minute: u32,
    pub second: u32,
    pub nanosecond: u32,
}

pub open spec fn is_ascii_digit(c: char) -> bool {
    '0' <= c && c <= '9'
}

pub open spec fn digit_value(c: char) -> int {
    (c as int) - ('0' as int)
}

/// The value of the two decimal digits at `at`.
pub open spec fn two_digits(t: Seq<char>, at: int) -> int {
    10 * digit_value(t[at]) + digit_value(t[at + 1])
}

/// The value of the four decimal digits at `at`.
pub open spec fn four_digits(t: Seq<char>, at: int) -> int {
    100 * two_digits(t, at) + two_digits(t, at + 2)
}

/// `t` reads `dd/dd/dddd - dd:dd:dd` with ASCII digits.
pub open spec fn timestamp_shaped(t: Seq<char>) -> bool {
    &&& t.len() == 21
    &&& is_ascii_digit(t[0]) && is_ascii_digit(t[1]) && t[2] == '/'
    &&& is_ascii_digit(t[3]) && is_ascii_digit(t[4]) && t[5] == '/'
    &&& is_ascii_digit(t[6]) && is_ascii_digit(t[7]) && is_ascii_digit(t[8]) && is_ascii_digit(t[9])
    &&& t[10] == ' ' && t[11] == '-' && t[12] == ' '
    &&& is_ascii_digit(t[13]) && is_ascii_digit(t[14]) && t[15] == ':'
    &&& is_ascii_digit(t[16]) && is_ascii_digit(t[17]) && t[18] == ':'
    &&& is_ascii_digit(t[19]) && is_ascii_digit(t[20])
}

/// Leap years of the proleptic Gregorian calendar.
pub open spec fn is_leap_year(y: int) -> bool {
    y % 4 == 0 && (y % 100 != 0 || y % 400 == 0)
}

pub open spec fn days_in_month(y: int, m: int) -> int {
    if m == 2 {
        if is_leap_year(y) { 29 } else { 28 }
    } else if m == 4 || m == 6 || m == 9 || m == 11 {
        30
    } else {
        31
    }
}

/// What chrono's `NaiveDateTime::parse_from_str` gives for a timestamp
/// `dd/mm/yyyy - HH:MM:SS` under the format `%d/%m/%Y - %H:%M:%S`: the date
/// must exist in the Gregorian calendar, the hour be at most 23, the minute at
/// most 59 and the second at most 60 (a leap second).
pub open spec fn chrono_timestamp(t: Seq<char>) -> Option<LogTime> {
    let d = two_digits(t, 0);
    let m = two_digits(t, 3);
    let y = four_digits(t, 6);
    let h = two_digits(t, 13);
    let mi = two_digits(t, 16);
    let s = two_digits(t, 19);
    if 1 <= m <= 12 && 1 <= d <= days_in_month(y, m) && h <= 23 && mi <= 59 && s <= 60 {
        Some(LogTime {
            year: y as i32,
            month: m as u32,
            day: d as u32,
            hour: h as u32,
            minute: mi as u32,
            second: if s == 60 { 59 } else { s as u32 },
            nanosecond: if s == 60 { 1_000_000_000 } else { 0 },
        })
    } else {
        None
    }
}

/// Calls chrono's `NaiveDateTime::parse_from_str(ts, fmt)` and reads the
/// fields of the result back with `year`, `month`, `day`, `hour`, `minute`,
/// `second` and `nanosecond`; a parse error becomes `None`. The contract
/// claims that for a timestamp of the shape `dd/dd/dddd - dd:dd:dd` and the
/// format `%d/%m/%Y - %H:%M:%S`, chrono accepts exactly the existing dates
/// and times described by `chrono_timestamp`, and reports them as it says.
#[verifier::external_body]
fn parse_timestamp(ts: &str, fmt: &str) -> (r: Option<LogTime>)
    requires
        timestamp_shaped(ts@),
        fmt@ == "%d/%m/%Y - %H:%M:%S"@,
    ensures
        r == chrono_timestamp(ts@),
{
    match chrono::NaiveDateTime::parse_from_str(ts, fmt) {
        Ok(t) => Some(LogTime {
            year: t.year(),
            month: t.month(),
            day: t.day(),
            hour: t.hour(),
            minute: t.minute(),
            second: t.second(),
            nanosecond: t.nanosecond(),
        }),
        Err(_) => None,
    }
}

/// The line starts with `[`, a timestamp of the expected shape, and `]`.
pub open spec fn has_timestamp_prefix(line: Seq<char>) -> bool {
    &&& line.len() >= 23
    &&& line[0] == '['
    &&& timestamp_shaped(line.subrange(1, 22))
    &&& line[22] == ']'
}

/// The time a log line carries: the bracketed timestamp at its start, when
/// chrono accepts it. (A bracketed prefix whose digits are not ASCII digits is
/// never accepted by chrono, so only ASCII digits need to be recognised.)
pub open spec fn line_time(line: Seq<char>) -> Option<LogTime> {
    if has_timestamp_prefix(line) {
        chrono_timestamp(line.subrange(1, 22))
    } else {
        None
    }
}

fn is_digit(c: char) -> (b: bool)
    ensures
        b == is_ascii_digit(c),
{
    '0' <= c && c <= '9'
}

fn shaped(line: &Vec<char>) -> (b: bool)
    requires
        line.len() >= 23,
    ensures
        b == timestamp_shaped(line@.subrange(1, 22)),
{
    is_digit(line[1]) && is_digit(line[2]) && line[3] == '/'
        && is_digit(line[4]) && is_digit(line[5]) && line[6] == '/'
        && is_digit(line[7]) && is_digit(line[8]) && is_digit(line[9]) && is_digit(line[10])
        && line[11] == ' ' && line[12] == '-' && line[13] == ' '
        && is_digit(line[14]) && is_digit(line[15]) && line[16] == ':'
        && is_digit(line[17]) && is_digit(line[18]) && line[19] == ':'
        && is_digit(line[20]) && is_digit(line[21])
}

/// A line carries exactly the time chrono parses from its bracketed
/// prefix, and no time without such a prefix.
pub proof fn lemma_line_time_is_chrono(line: Seq<char>)
    ensures
        has_timestamp_prefix(line) ==> line_time(line) == chrono_timestamp(line.subrange(1, 22)),
        !has_timestamp_prefix(line) ==> line_time(line) is None,
{
}

/// chrono reads each field from its digits: day, month, year, hour, minute
/// and second as written, a second of 60 as second 59 with one second of
/// nanoseconds; it accepts exactly the existing dates with an hour below 24,
/// a minute below 60 and a second of at most 60.
pub proof fn lemma_chrono_reads_digits(t: Seq<char>)
    requires
        timestamp_shaped(t),
    ensures
        chrono_timestamp(t) is Some <==> {
            &&& 1 <= two_digits(t, 3) <= 12
            &&& 1 <= two_digits(t, 0) <= days_in_month(four_digits(t, 6), two_digits(t, 3))
            &&& two_digits(t, 13) <= 23
            &&& two_digits(t, 16) <= 59
            &&& two_digits(t, 19) <= 60
        },
        chrono_timestamp(t) matches Some(x) ==> {
            &&& x.day == two_digits(t, 0)
            &&& x.month == two_digits(t, 3)
            &&& x.year == four_digits(t, 6)
            &&& x.hour == two_digits(t, 13)
            &&& x.minute == two_digits(t, 16)
            &&& two_digits(t, 19) < 60 ==> x.second == two_digits(t, 19) && x.nanosecond == 0
            &&& two_digits(t, 19) == 60 ==> x.second == 59 && x.nanosecond == 1_000_000_000
        },
{
    assert(0 <= four_digits(t, 6) <= 9999);
}

/// The time at the start of a log line, if it has one that chrono accepts.
pub fn line_timestamp(line: &Vec<char>) -> (r: Option<LogTime>)
    ensures
        r == line_time(line@),
        has_timestamp_prefix(line@) ==> r == chrono_timestamp(line@.subrange(1, 22)),
        !has_timestamp_prefix(line@) ==> r is None,
{
    proof {
        lemma_line_time_is_chrono(line@);
    }
    if line.len() >= 23 && line[0] == '[' && line[22] == ']' && shaped(line) {
        let ts = string_from_chars(&copy_range(line, 1, 22));
        parse_timestamp(ts.as_str(), "%d/%m/%Y - %H:%M:%S")
    } else {
        None
    }
}


/// The ranges a time from `chrono_timestamp` lies in.
pub open spec fn valid_log_time(t: LogTime) -> bool {
    &&& 0 <= t.year <= 9999
    &&& 1 <= t.month <= 12
    &&& 1 <= t.day <= 31
    &&& t.hour <= 23
    &&& t.minute <= 59
    &&& t.second <= 59
    &&& (t.nanosecond == 0 || t.nanosecond == 1_000_000_000)
}

/// One number per time that orders times as the calendar and the clock do.
pub open spec fn time_key(t: LogTime) -> int {
    ((((((t.year as int) * 12 + (t.month - 1)) * 31 + (t.day - 1)) * 24 + t.hour) * 60 + t.minute)
        * 60 + t.second) * 2 + (if t.nanosecond >= 1_000_000_000 { 1int } else { 0int })
}

/// `a` comes strictly before `b`: compare year, month, day, hour, minute,
/// second and then the leap-second part, in that order.
pub open spec fn time_before(a: LogTime, b: LogTime) -> bool {
    if a.year != b.year {
        a.year < b.year
    } else if a.month != b.month {
        a.month < b.month
    } else if a.day != b.day {
        a.day < b.day
    } else if a.hour != b.hour {
        a.hour < b.hour
    } else if a.minute != b.minute {
        a.minute < b.minute
    } else if a.second != b.second {
        a.second < b.second
    } else {
        a.nanosecond < b.nanosecond
    }
}

/// `time_before` is the calendar-and-clock order: a strict total order in
/// which an earlier year comes first whatever the rest, then, in the same
/// year, an earlier month, and so on down to the second and the leap part.
pub proof fn lemma_time_before_order(a: LogTime, b: LogTime, c: LogTime)
    ensures
        !time_before(a, a),
        a != b ==> time_before(a, b) || time_before(b, a),
        time_before(a, b) ==> !time_before(b, a),
        time_before(a, b) && time_before(b, c) ==> time_before(a, c),
        a.year < b.year ==> time_before(a, b),
        a.year == b.year && a.month < b.month ==> time_before(a, b),
        a.year == b.year && a.month == b.month && a.day < b.day ==> time_before(a, b),
        a.year == b.year && a.month == b.month && a.day == b.day && a.hour < b.hour ==> time_before(a, b),
        a.year == b.year && a.month == b.month && a.day == b.day && a.hour == b.hour
            && a.minute < b.minute ==> time_before(a, b),
        a.year == b.year && a.month == b.month && a.day == b.day && a.hour == b.hour
            && a.minute == b.minute && a.second < b.second ==> time_before(a, b),
        a.year == b.year && a.month == b.month && a.day == b.day && a.hour == b.hour
            && a.minute == b.minute && a.second == b.second && a.nanosecond < b.nanosecond
            ==> time_before(a, b),
{
}

proof fn lemma_mixed_radix(a1: int, c1: int, a2: int, c2: int, base: int)
    by (nonlinear_arith)
    requires
        base > 0,
        0 <= c1 < base,
        0 <= c2 < base,
    ensures
        (a1 * base + c1 < a2 * base + c2) <==> (a1 < a2 || (a1 == a2 && c1 < c2)),
        (a1 * base + c1 == a2 * base + c2) <==> (a1 == a2 && c1 == c2),
{
    if a1 < a2 {
        assert(a1 * base + base <= a2 * base);
    } else if a2 < a1 {
        assert(a2 * base + base <= a1 * base);
    }
}

/// Every time chrono reports lies in the ranges of `valid_log_time`.
pub proof fn lemma_chrono_times_valid(t: Seq<char>)
    requires
        timestamp_shaped(t),
        chrono_timestamp(t) is Some,
    ensures
        valid_log_time(chrono_timestamp(t)->0),
{
}

/// The key orders times chronologically, and only equal times share a key.
pub proof fn lemma_time_key_chronological(a: LogTime, b: LogTime)
    requires
        valid_log_time(a),
        valid_log_time(b),
    ensures
        time_key(a) < time_key(b) <==> time_before(a, b),
        time_key(a) == time_key(b) <==> a == b,
{
    let la: int = if a.nanosecond >= 1_000_000_000 { 1 } else { 0 };
    let lb: int = if b.nanosecond >= 1_000_000_000 { 1 } else { 0 };
    let y1 = a.year as int;
    let y2 = b.year as int;
    let m1 = y1 * 12 + (a.month - 1);
    let m2 = y2 * 12 + (b.month - 1);
    lemma_mixed_radix(y1, a.month - 1, y2, b.month - 1, 12);
    let d1 = m1 * 31 + (a.day - 1);
    let d2 = m2 * 31 + (b.day - 1);
    lemma_mixed_radix(m1, a.day - 1, m2, b.day - 1, 31);
    let h1 = d1 * 24 + a.hour;
    let h2 = d2 * 24 + b.hour;
    lemma_mixed_radix(d1, a.hour as int, d2, b.hour as int, 24);
    let i1 = h1 * 60 + a.minute;
    let i2 = h2 * 60 + b.minute;
    lemma_mixed_radix(h1, a.minute as int, h2, b.minute as int, 60);
    let s1 = i1 * 60 + a.second;
    let s2 = i2 * 60 + b.second;
    lemma_mixed_radix(i1, a.second as int, i2, b.second as int, 60);
    lemma_mixed_radix(s1, la, s2, lb, 2);
}

/// The key of a time, as a `u64`.
pub fn log_time_key(t: &LogTime) -> (k: u64)
    requires
        valid_log_time(*t),
    ensures
        k == time_key(*t),
{
    let leap: u64 = if t.nanosecond >= 1_000_000_000 { 1 } else { 0 };
    let y = t.year as u64;
    let months = y * 12 + (t.month as u64 - 1);
    let days = months * 31 + (t.day as u64 - 1);
    let hours = days * 24 + t.hour as u64;
    let minutes = hours * 60 + t.minute as u64;
    let seconds = minutes * 60 + t.second as u64;
    seconds * 2 + leap
}


/// Positions, among the first `n` lines, of the lines that carry a time.
pub open spec fn timed_upto(lines: Seq<Seq<char>>, n: int) -> Seq<int>
    decreases n,
{
    if n <= 0 {
        Seq::empty()
    } else if line_time(lines[n - 1]) is Some {
        timed_upto(lines, n - 1).push(n - 1)
    } else {
        timed_upto(lines, n - 1)
    }
}

/// Positions, among the first `n` lines, of the lines that carry no time.
pub open spec fn untimed_upto(lines: Seq<Seq<char>>, n: int) -> Seq<int>
    decreases n,
{
    if n <= 0 {
        Seq::empty()
    } else if line_time(lines[n - 1]) is Some {
        untimed_upto(lines, n - 1)
    } else {
        untimed_upto(lines, n - 1).push(n - 1)
    }
}

pub open spec fn timed_positions(lines: Seq<Seq<char>>) -> Seq<int> {
    timed_upto(lines, lines.len() as int)
}

pub open spec fn untimed_positions(lines: Seq<Seq<char>>) -> Seq<int> {
    untimed_upto(lines, lines.len() as int)
}

/// The sort keys of the lines that carry a time, in log order.
pub open spec fn timed_keys(lines: Seq<Seq<char>>) -> Seq<u64> {
    timed_positions(lines).map_values(|p: int| time_key(line_time(lines[p])->0) as u64)
}

/// Each line followed by a newline.
pub open spec fn with_newlines(ls: Seq<Seq<char>>) -> Seq<char>
    decreases ls.len(),
{
    if ls.len() == 0 {
        Seq::empty()
    } else {
        with_newlines(ls.drop_last()) + ls.last().push('\n')
    }
}

/// Each line is written followed by a newline, in order: the text of two
/// runs of lines is that of the first followed by that of the second.
pub proof fn lemma_with_newlines_concat(a: Seq<Seq<char>>, b: Seq<Seq<char>>, line: Seq<char>)
    ensures
        with_newlines(a + b) == with_newlines(a) + with_newlines(b),
        with_newlines(seq![line]) == line.push('\n'),
    decreases b.len(),
{
    assert(seq![line].drop_last() =~= Seq::<Seq<char>>::empty());
    assert(seq![line].last() == line);
    assert(with_newlines(Seq::<Seq<char>>::empty()) == Seq::<char>::empty());
    if b.len() == 0 {
        assert(a + b =~= a);
    } else {
        lemma_with_newlines_concat(a, b.drop_last(), line);
        assert((a + b).drop_last() =~= a + b.drop_last());
        assert((a + b).last() == b.last());
    }
}

/// The timed lines, in the given order of their positions among the timed lines.
pub open spec fn sorted_lines(lines: Seq<Seq<char>>, order: Seq<usize>) -> Seq<Seq<char>> {
    order.map_values(|k: usize| lines[timed_positions(lines)[k as int]])
}

pub open spec fn untimed_lines(lines: Seq<Seq<char>>) -> Seq<Seq<char>> {
    untimed_positions(lines).map_values(|p: int| lines[p])
}

pub open spec fn untimed_header() -> Seq<char> {
    "# Lines without a recognized timestamp:\n"@
}

/// The stable order, by time, of the lines that carry a time.
pub open spec fn stable_order_of_lines(lines: Seq<Seq<char>>) -> Seq<usize> {
    stable_order_of(timed_keys(lines))
}

/// The positions of timed lines rise, lie below `n`, and carry a time.
pub proof fn lemma_timed_upto(lines: Seq<Seq<char>>, n: int)
    requires
        0 <= n <= lines.len(),
    ensures
        timed_upto(lines, n).len() + untimed_upto(lines, n).len() == n,
        forall|i: int| 0 <= i < timed_upto(lines, n).len() ==>
            0 <= #[trigger] timed_upto(lines, n)[i] < n && line_time(lines[timed_upto(lines, n)[i]]) is Some,
        forall|i: int, j: int| 0 <= i < j < timed_upto(lines, n).len() ==>
            #[trigger] timed_upto(lines, n)[i] < #[trigger] timed_upto(lines, n)[j],
    decreases n,
{
    if n > 0 {
        lemma_timed_upto(lines, n - 1);
    }
}

/// The positions of untimed lines rise, lie below `n`, and carry no time.
pub proof fn lemma_untimed_upto(lines: Seq<Seq<char>>, n: int)
    requires
        0 <= n <= lines.len(),
    ensures
        forall|i: int| 0 <= i < untimed_upto(lines, n).len() ==>
            0 <= #[trigger] untimed_upto(lines, n)[i] < n && line_time(lines[untimed_upto(lines, n)[i]]) is None,
        forall|i: int, j: int| 0 <= i < j < untimed_upto(lines, n).len() ==>
            #[trigger] untimed_upto(lines, n)[i] < #[trigger] untimed_upto(lines, n)[j],
    decreases n,
{
    if n > 0 {
        lemma_untimed_upto(lines, n - 1);
    }
}

/// The sorted part of the output is in time order: no line in it carries a
/// later time than a line after it, and lines with the same time keep the
/// order they had in the log.
pub proof fn lemma_sorted_part_chronological(lines: Seq<Seq<char>>, a: int, b: int)
    requires
        lines.len() <= usize::MAX,
        0 <= a < b < timed_positions(lines).len(),
    ensures
        ({
            let o = stable_order_of_lines(lines);
            let pa = timed_positions(lines)[o[a] as int];
            let pb = timed_positions(lines)[o[b] as int];
            let ta = line_time(lines[pa])->0;
            let tb = line_time(lines[pb])->0;
            &&& has_timestamp_prefix(lines[pa]) && has_timestamp_prefix(lines[pb])
            &&& line_time(lines[pa]) == chrono_timestamp(lines[pa].subrange(1, 22))
            &&& line_time(lines[pb]) == chrono_timestamp(lines[pb].subrange(1, 22))
            &&& !time_before(tb, ta)
            &&& ta == tb ==> pa < pb
        }),
{
    let tp = timed_positions(lines);
    let keys = timed_keys(lines);
    lemma_timed_upto(lines, lines.len() as int);
    lemma_stable_order_exists(keys);
    let o = stable_order_of(keys);
    lemma_stable_order_in_range(keys, o);
    assert(key_before(keys, o[a] as int, o[b] as int));
    let pa = tp[o[a] as int];
    let pb = tp[o[b] as int];
    let ta = line_time(lines[pa])->0;
    let tb = line_time(lines[pb])->0;
    lemma_chrono_times_valid(lines[pa].subrange(1, 22));
    lemma_chrono_times_valid(lines[pb].subrange(1, 22));
    lemma_time_key_chronological(ta, tb);
    lemma_time_key_chronological(tb, ta);
    assert(time_key(ta) < 0x1_0000_0000_0000_0000);
    assert(time_key(tb) < 0x1_0000_0000_0000_0000);
    assert(keys[o[a] as int] as int == time_key(ta));
    assert(keys[o[b] as int] as int == time_key(tb));
    if ta == tb {
        assert(o[a] < o[b]);
    }
}

/// The positions of the log lines in the order the output shows them: the
/// timed lines in their sorted order, then the untimed ones.
pub open spec fn output_positions(lines: Seq<Seq<char>>) -> Seq<int> {
    stable_order_of_lines(lines).map_values(|k: usize| timed_positions(lines)[k as int])
        + untimed_positions(lines)
}

/// The positions `0..n`.
pub open spec fn positions(n: int) -> Seq<int> {
    Seq::new(n as nat, |i: int| i)
}

proof fn lemma_partition(lines: Seq<Seq<char>>, n: int)
    requires
        0 <= n <= lines.len(),
    ensures
        (timed_upto(lines, n) + untimed_upto(lines, n)).to_multiset() == positions(n).to_multiset(),
    decreases n,
{
    broadcast use vstd::seq_lib::group_to_multiset_ensures;
    if n == 0 {
        assert(timed_upto(lines, n) + untimed_upto(lines, n) =~= positions(0));
    } else {
        lemma_partition(lines, n - 1);
        let t = timed_upto(lines, n - 1);
        let u = untimed_upto(lines, n - 1);
        assert(positions(n) =~= positions(n - 1).push(n - 1));
        vstd::seq_lib::lemma_multiset_commutative(t, u);
        if line_time(lines[n - 1]) is Some {
            vstd::seq_lib::lemma_multiset_commutative(t.push(n - 1), u);
        } else {
            vstd::seq_lib::lemma_multiset_commutative(t, u.push(n - 1));
        }
    }
}

/// Every line of the log stands exactly once in the output: the positions
/// the output shows are the positions of the log, each once.
pub proof fn lemma_every_line_once(lines: Seq<Seq<char>>)
    requires
        lines.len() <= usize::MAX,
    ensures
        output_positions(lines).to_multiset() == positions(lines.len() as int).to_multiset(),
{
    broadcast use vstd::seq_lib::group_to_multiset_ensures;
    let n = lines.len() as int;
    let tp = timed_positions(lines);
    let keys = timed_keys(lines);
    lemma_timed_upto(lines, n);
    lemma_stable_order_exists(keys);
    let o = stable_order_of(keys);
    let f = |k: usize| tp[k as int];
    let r = index_range(0, tp.len() as int);
    lemma_map_same_elements(o, r, f);
    assert(r.map_values(f) =~= tp);
    lemma_partition(lines, n);
    vstd::seq_lib::lemma_multiset_commutative(o.map_values(f), untimed_positions(lines));
    vstd::seq_lib::lemma_multiset_commutative(tp, untimed_positions(lines));
}

/// The sorted log: the timed lines in the given order, then, if any line
/// carries no time, an empty line, a heading, and those lines in log order.
pub open spec fn order_text(lines: Seq<Seq<char>>, order: Seq<usize>) -> Seq<char> {
    with_newlines(sorted_lines(lines, order)) + if untimed_lines(lines).len() > 0 {
        seq!['\n'] + untimed_header() + with_newlines(untimed_lines(lines))
    } else {
        Seq::empty()
    }
}

/// The sorted log shows the lines at the output positions, each followed by
/// a newline: first the timed ones, then, when there are untimed ones, an
/// empty line, the heading, and the untimed ones.
pub proof fn lemma_sorted_text_shows_output_positions(lines: Seq<Seq<char>>)
    requires
        lines.len() <= usize::MAX,
    ensures
        ({
            let op = output_positions(lines);
            let t = timed_positions(lines).len() as int;
            &&& t + untimed_positions(lines).len() == lines.len()
            &&& op.len() == lines.len()
            &&& order_text(lines, stable_order_of_lines(lines))
                == with_newlines(op.take(t).map_values(|p: int| lines[p])) + if op.len() > t {
                    seq!['\n'] + untimed_header() + with_newlines(op.skip(t).map_values(|p: int| lines[p]))
                } else {
                    Seq::empty()
                }
        }),
{
    let keys = timed_keys(lines);
    lemma_timed_upto(lines, lines.len() as int);
    lemma_stable_order_exists(keys);
    let o = stable_order_of(keys);
    lemma_stable_order_in_range(keys, o);
    let tp = timed_positions(lines);
    let up = untimed_positions(lines);
    let op = output_positions(lines);
    let t = tp.len() as int;
    assert(o.len() == t);
    assert(op.take(t).map_values(|p: int| lines[p]) =~= sorted_lines(lines, o));
    assert(op.skip(t).map_values(|p: int| lines[p]) =~= untimed_lines(lines));
}

/// The result of sorting a log.
pub struct SortedLog {
    /// The sorted log text.
    pub text: String,
    /// How many lines carried a time and were sorted.
    pub sorted: usize,
    /// How many lines carried no time and were appended at the end.
    pub unparsed: usize,
}

proof fn lemma_with_newlines_step(ls: Seq<Seq<char>>, k: int)
    requires
        0 <= k < ls.len(),
    ensures
        with_newlines(ls.take(k + 1)) == with_newlines(ls.take(k)) + ls[k].push('\n'),
{
    assert(ls.take(k + 1).drop_last() == ls.take(k));
}

fn push_lines(text: &mut String, lines: &Vec<Vec<char>>, picks: &Vec<usize>, Ghost(picked): Ghost<Seq<Seq<char>>>)
    requires
        forall|k: int| 0 <= k < picks.len() ==> #[trigger] picks@[k] < lines.len(),
        picked.len() == picks.len(),
        forall|k: int| 0 <= k < picks.len() ==> #[trigger] picked[k] == lines@[picks@[k] as int]@,
    ensures
        final(text)@ == old(text)@ + with_newlines(picked),
{
    let ghost start = text@;
    let mut k: usize = 0;
    while k < picks.len()
        invariant
            k <= picks.len(),
            forall|k: int| 0 <= k < picks.len() ==> #[trigger] picks@[k] < lines.len(),
            picked.len() == picks.len(),
            forall|k: int| 0 <= k < picks.len() ==> #[trigger] picked[k] == lines@[picks@[k] as int]@,
            text@ == start + with_newlines(picked.take(k as int)),
        decreases picks.len() - k,
    {
        let p = picks[k];
        push_chars(text, &lines[p]);
        push_char(text, '\n');
        proof {
            lemma_with_newlines_step(picked, k as int);
            assert(picked[k as int] == lines@[p as int]@);
        }
        k += 1;
    }
    assert(picked.take(picks.len() as int) == picked);
}

/// Sorts a log by the timestamps at the start of its lines, as a stable
/// sort does, and puts the lines without a timestamp at the end.
pub fn sort_log(content: &str) -> (r: SortedLog)
    ensures
        ({
            let lines = split_lines(content@);
            &&& r.sorted == timed_positions(lines).len()
            &&& r.unparsed == untimed_positions(lines).len()
            &&& r.text@ == order_text(lines, stable_order_of_lines(lines))
            &&& r.sorted + r.unparsed == lines.len()
        }),
{
    let chars = chars_of(content);
    let lines = split_lines_of(&chars);
    let ghost ls = lines.deep_view();
    let mut timed: Vec<usize> = Vec::new();
    let mut untimed: Vec<usize> = Vec::new();
    let mut keys: Vec<u64> = Vec::new();
    let mut i: usize = 0;
    while i < lines.len()
        invariant
            i <= lines.len(),
            ls == lines.deep_view(),
            ls.len() == lines.len(),
            timed@.len() == timed_upto(ls, i as int).len(),
            forall|k: int| 0 <= k < timed@.len() ==> timed@[k] as int == #[trigger] timed_upto(ls, i as int)[k],
            untimed@.len() == untimed_upto(ls, i as int).len(),
            forall|k: int| 0 <= k < untimed@.len() ==> untimed@[k] as int == #[trigger] untimed_upto(ls, i as int)[k],
            keys@ == timed_upto(ls, i as int).map_values(|p: int| time_key(line_time(ls[p])->0) as u64),
            forall|k: int| 0 <= k < timed_upto(ls, i as int).len() ==>
                0 <= #[trigger] timed_upto(ls, i as int)[k] < i,
            forall|k: int| 0 <= k < untimed_upto(ls, i as int).len() ==>
                0 <= #[trigger] untimed_upto(ls, i as int)[k] < i,
        decreases lines.len() - i,
    {
        assert(lines@[i as int].deep_view() =~= lines@[i as int]@);
        let t = line_timestamp(&lines[i]);
        match t {
            Some(t) => {
                proof {
                    lemma_chrono_times_valid(lines@[i as int]@.subrange(1, 22));
                }
                let key = log_time_key(&t);
                keys.push(key);
                timed.push(i);
                proof {
                    assert(timed_upto(ls, i + 1) == timed_upto(ls, i as int).push(i as int));
                    assert(untimed_upto(ls, i + 1) == untimed_upto(ls, i as int));
                }
            },
            None => {
                untimed.push(i);
                proof {
                    assert(timed_upto(ls, i + 1) == timed_upto(ls, i as int));
                    assert(untimed_upto(ls, i + 1) == untimed_upto(ls, i as int).push(i as int));
                }
            },
        }
        i += 1;
    }
    let order = stable_order(&keys);
    proof {
        lemma_stable_order_in_range(keys@, order@);
        assert forall|j: int| 0 <= j < timed@.len() implies (timed@[j] as int) < lines.len() by {
            assert(timed@[j] as int == timed_upto(ls, i as int)[j]);
        }
        assert forall|j: int| 0 <= j < untimed@.len() implies (untimed@[j] as int) < lines.len() by {
            assert(untimed@[j] as int == untimed_upto(ls, i as int)[j]);
        }
        assert forall|p: int| 0 <= p < lines.len() implies #[trigger] ls[p] == lines@[p]@ by {
            assert(lines@[p].deep_view() =~= lines@[p]@);
        }
    }
    let ghost sorted = sorted_lines(ls, order@);
    let mut picks: Vec<usize> = Vec::new();
    let mut k: usize = 0;
    while k < order.len()
        invariant
            k <= order.len(),
            order.len() == keys.len(),
            keys.len() == timed.len(),
            forall|j: int| 0 <= j < order.len() ==> #[trigger] order@[j] < keys.len(),
            forall|j: int| 0 <= j < timed@.len() ==> (timed@[j] as int) < lines.len(),
            picks@.len() == k,
            forall|j: int| 0 <= j < k ==> #[trigger] picks@[j] == timed@[order@[j] as int],
        decreases order.len() - k,
    {
        picks.push(timed[order[k]]);
        k += 1;
    }
    proof {
        assert forall|j: int| 0 <= j < picks.len() implies #[trigger] sorted[j] == lines@[picks@[j] as int]@ by {
            assert(picks@[j] == timed@[order@[j] as int]);
            assert(timed@[order@[j] as int] as int == timed_upto(ls, i as int)[order@[j] as int]);
        }
        assert forall|j: int| 0 <= j < untimed.len() implies #[trigger] untimed_lines(ls)[j] == lines@[untimed@[j] as int]@ by {
            assert(untimed@[j] as int == untimed_upto(ls, i as int)[j]);
        }
    }
    let mut text = String::new();
    push_lines(&mut text, &lines, &picks, Ghost(sorted));
    let unparsed = untimed.len();
    if unparsed > 0 {
        push_char(&mut text, '\n');
        text.append("# Lines without a recognized timestamp:\n");
        push_lines(&mut text, &lines, &untimed, Ghost(untimed_lines(ls)));
    }
    proof {
        lemma_timed_upto(ls, ls.len() as int);
    }
    SortedLog { text, sorted: timed.len(), unparsed }
}


/// The summary shown after writing the sorted log to `out`.
pub open spec fn summary_text(sorted: nat, unparsed: nat, out: Seq<char>) -> Seq<char> {
    "Sorted "@ + decimal(sorted) + " lines -> "@ + out + seq!['\n'] + if unparsed > 0 {
        "  "@ + decimal(unparsed) + " line(s) had no timestamp and were appended at the end.\n"@
    } else {
        Seq::empty()
    }
}

/// The summary shown after writing a sorted log to the file `out`: how many
/// lines were sorted, and how many had no timestamp.
pub fn order_summary(log: &SortedLog, out: &str) -> (s: String)
    ensures
        s@ == summary_text(log.sorted as nat, log.unparsed as nat, out@),
{
    let mut s = String::new();
    s.append("Sorted ");
    push_decimal(&mut s, log.sorted);
    s.append(" lines -> ");
    s.append(out);
    push_char(&mut s, '\n');
    if log.unparsed > 0 {
        s.append("  ");
        push_decimal(&mut s, log.unparsed);
        s.append(" line(s) had no timestamp and were appended at the end.\n");
    }
    s
}

} // verus!
