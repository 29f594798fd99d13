//! Minute-granular timestamps `DD.MM.YYYY HH:MM`: how a marker is resolved
//! into one, how one is written, and what one reads as.

use crate::marker::{
    day_month_at, first_marker, is_date_token, is_digit, is_time_token, pair_here, time_at,
    year_at, year_here, Event, Marker,
};
use chrono::{Datelike, Timelike};
use vstd::prelude::*;

verus! {

/// A calendar date as numbers.
#[derive(Clone, Copy, Debug)]
pub struct LocalDate {
    pub year: u32,
    pub month: u32,
    pub day: u32,
}

/// A date and a time of day, to the minute, as numbers.
#[derive(Clone, Copy, Debug)]
pub struct Moment {
    pub year: u32,
    pub month: u32,
    pub day: u32,
    pub hour: u32,
    pub minute: u32,
}

/// Why a marker could not be resolved.
#[derive(Clone, Copy, Debug, PartialEq, Eq, Structural)]
pub enum ResolveError {
    /// The marker's tokens do not name a moment of the calendar.
    InvalidTimestamp,
}

/// The number that a digit stands for.
pub open spec fn digit_value(c: char) -> int {
    c as int - 48
}

/// The digit that stands for a number below ten.
pub open spec fn digit_char(d: int) -> char {
    if d == 0 {
        '0'
    } else if d == 1 {
        '1'
    } else if d == 2 {
        '2'
    } else if d == 3 {
        '3'
    } else if d == 4 {
        '4'
    } else if d == 5 {
        '5'
    } else if d == 6 {
        '6'
    } else if d == 7 {
        '7'
    } else if d == 8 {
        '8'
    } else {
        '9'
    }
}

/// A number below 100, written with two digits.
pub open spec fn two_digits(v: int) -> Seq<char> {
    seq![digit_char(v / 10), digit_char(v % 10)]
}

/// A number below 10000, written with four digits.
pub open spec fn four_digits(v: int) -> Seq<char> {
    two_digits(v / 100) + two_digits(v % 100)
}

/// The number written by the two digits at `i`.
pub open spec fn number2(s: Seq<char>, i: int) -> int {
    10 * digit_value(s[i]) + digit_value(s[i + 1])
}

/// The number written by the four digits at `i`.
pub open spec fn number4(s: Seq<char>, i: int) -> int {
    100 * number2(s, i) + number2(s, i + 2)
}

/// The date can be written as `DD.MM.YYYY`.
pub open spec fn date_writable(d: LocalDate) -> bool {
    d.day < 100 && d.month < 100 && d.year < 10000
}

/// The moment can be written as `DD.MM.YYYY HH:MM`.
pub open spec fn moment_writable(m: Moment) -> bool {
    m.day < 100 && m.month < 100 && m.year < 10000 && m.hour < 100 && m.minute < 100
}

/// The date written as `DD.MM.YYYY`.
pub open spec fn render_date(d: LocalDate) -> Seq<char> {
    two_digits(d.day as int) + seq!['.'] + two_digits(d.month as int) + seq!['.'] + four_digits(
        d.year as int,
    )
}

/// The moment written as `DD.MM.YYYY HH:MM`.
pub open spec fn render_moment(m: Moment) -> Seq<char> {
    render_date(LocalDate { year: m.year, month: m.month, day: m.day }) + seq![' ']
        + two_digits(m.hour as int) + seq![':'] + two_digits(m.minute as int)
}

/// The text has the layout `DD.MM.YYYY HH:MM`, digit by digit.
pub open spec fn stamp_shaped(s: Seq<char>) -> bool {
    &&& s.len() == 16
    &&& day_month_at(s, 0)
    &&& year_at(s, 5)
    &&& s[10] == ' '
    &&& time_at(s, 11)
}

/// The numbers that a text of the layout `DD.MM.YYYY HH:MM` writes.
pub open spec fn moment_of(s: Seq<char>) -> Moment {
    Moment {
        year: number4(s, 6) as u32,
        month: number2(s, 3) as u32,
        day: number2(s, 0) as u32,
        hour: number2(s, 11) as u32,
        minute: number2(s, 14) as u32,
    }
}

/// A leap year of the (proleptic) Gregorian calendar.
pub open spec fn is_leap_year(y: int) -> bool {
    y % 4 == 0 && (y % 100 != 0 || y % 400 == 0)
}

/// The number of days of a month, 0 for a month that does not exist.
pub open spec fn days_in_month(y: int, m: int) -> int {
    if m == 2 {
        if is_leap_year(y) {
            29
        } else {
            28
        }
    } else if m == 4 || m == 6 || m == 9 || m == 11 {
        30
    } else if 1 <= m && m <= 12 {
        31
    } else {
        0
    }
}

/// The numbers name a day of the calendar and a minute of the day.
pub open spec fn is_calendar_moment(m: Moment) -> bool {
    &&& 1 <= m.day
    &&& m.day <= days_in_month(m.year as int, m.month as int)
    &&& m.hour <= 23
    &&& m.minute <= 59
}

/// What a text reads as: the moment it writes, if it has the layout
/// `DD.MM.YYYY HH:MM` and that moment exists.
pub open spec fn read_stamp(s: Seq<char>) -> Option<Moment> {
    if stamp_shaped(s) && is_calendar_moment(moment_of(s)) {
        Some(moment_of(s))
    } else {
        None
    }
}

/// The full text `DD.MM.YYYY HH:MM` that a marker stands for on the day
/// `today`: a missing date is today's, a missing year is today's. `None`
/// where a token has not the grammar's shape or today's part cannot be written.
pub open spec fn compose(m: Marker, today: LocalDate) -> Option<Seq<char>> {
    if !is_time_token(m.time) {
        None
    } else {
        match m.date {
            None => if date_writable(today) {
                Some(render_date(today) + seq![' '] + m.time)
            } else {
                None
            },
            Some(d) => if !is_date_token(d) {
                None
            } else if d.len() == 10 {
                Some(d + seq![' '] + m.time)
            } else if today.year < 10000 {
                Some(d + seq!['.'] + four_digits(today.year as int) + seq![' '] + m.time)
            } else {
                None
            },
        }
    }
}

/// The timestamp that a marker resolves to on the day `today`.
pub open spec fn resolved(m: Marker, today: LocalDate) -> Result<Seq<char>, ResolveError> {
    match compose(m, today) {
        None => Err(ResolveError::InvalidTimestamp),
        Some(c) => match read_stamp(c) {
            None => Err(ResolveError::InvalidTimestamp),
            Some(moment) => Ok(render_moment(moment)),
        },
    }
}

/// A digit is the digit of its own value.
pub proof fn lemma_digit_round_trip(c: char)
    requires
        is_digit(c),
    ensures
        0 <= digit_value(c) <= 9,
        digit_char(digit_value(c)) == c,
{
}

/// Written numbers read back as themselves.
pub proof fn lemma_number_round_trip(s: Seq<char>, i: int)
    requires
        0 <= i,
        i + 2 <= s.len(),
        is_digit(s[i]),
        is_digit(s[i + 1]),
    ensures
        0 <= number2(s, i) < 100,
        two_digits(number2(s, i)) == s.subrange(i, i + 2),
{
    lemma_digit_round_trip(s[i]);
    lemma_digit_round_trip(s[i + 1]);
    assert(two_digits(number2(s, i)) =~= s.subrange(i, i + 2));
}

/// The digit of a number below ten stands for that number.
pub proof fn lemma_digit_char_value(d: int)
    requires
        0 <= d <= 9,
    ensures
        is_digit(digit_char(d)),
        digit_value(digit_char(d)) == d,
{
}

/// A year of four digits reads back as itself.
pub proof fn lemma_year_round_trip(s: Seq<char>, i: int)
    requires
        0 <= i,
        i + 4 <= s.len(),
        is_digit(s[i]),
        is_digit(s[i + 1]),
        is_digit(s[i + 2]),
        is_digit(s[i + 3]),
    ensures
        0 <= number4(s, i) < 10000,
        four_digits(number4(s, i)) == s.subrange(i, i + 4),
{
    lemma_digit_round_trip(s[i]);
    lemma_digit_round_trip(s[i + 1]);
    lemma_digit_round_trip(s[i + 2]);
    lemma_digit_round_trip(s[i + 3]);
    lemma_number_round_trip(s, i);
    lemma_number_round_trip(s, i + 2);
    assert(two_digits(number4(s, i) / 100) =~= s.subrange(i, i + 2));
    assert(two_digits(number4(s, i) % 100) =~= s.subrange(i + 2, i + 4));
    assert(four_digits(number4(s, i)) =~= s.subrange(i, i + 4));
}

/// A number below 100, written with two digits, reads back as itself.
pub proof fn lemma_two_digits_read(v: int)
    requires
        0 <= v < 100,
    ensures
        two_digits(v).len() == 2,
        is_digit(two_digits(v)[0]),
        is_digit(two_digits(v)[1]),
        number2(two_digits(v), 0) == v,
{
    lemma_digit_char_value(v / 10);
    lemma_digit_char_value(v % 10);
}

/// A number below 10000, written with four digits, reads back as itself.
pub proof fn lemma_four_digits_read(v: int)
    requires
        0 <= v < 10000,
    ensures
        four_digits(v).len() == 4,
        is_digit(four_digits(v)[0]),
        is_digit(four_digits(v)[1]),
        is_digit(four_digits(v)[2]),
        is_digit(four_digits(v)[3]),
        number4(four_digits(v), 0) == v,
{
    lemma_two_digits_read(v / 100);
    lemma_two_digits_read(v % 100);
    let hi = two_digits(v / 100);
    let lo = two_digits(v % 100);
    let s = four_digits(v);
    assert(s[0] == hi[0] && s[1] == hi[1] && s[2] == lo[0] && s[3] == lo[1]);
    assert(number2(s, 0) == number2(hi, 0));
    assert(number2(s, 2) == number2(lo, 0));
}

/// Writing the numbers of a text of the layout `DD.MM.YYYY HH:MM` gives the
/// text back.
pub proof fn lemma_render_of_read(s: Seq<char>)
    requires
        stamp_shaped(s),
    ensures
        moment_writable(moment_of(s)),
        render_moment(moment_of(s)) == s,
{
    lemma_number_round_trip(s, 0);
    lemma_number_round_trip(s, 3);
    lemma_year_round_trip(s, 6);
    lemma_number_round_trip(s, 11);
    lemma_number_round_trip(s, 14);
    assert(render_moment(moment_of(s)) =~= s);
}

/// A written moment has the layout `DD.MM.YYYY HH:MM` and reads as the
/// numbers that were written.
pub proof fn lemma_read_of_render(m: Moment)
    requires
        moment_writable(m),
    ensures
        stamp_shaped(render_moment(m)),
        moment_of(render_moment(m)) == m,
        read_stamp(render_moment(m)) == if is_calendar_moment(m) {
            Some(m)
        } else {
            None
        },
{
    let s = render_moment(m);
    let dd = two_digits(m.day as int);
    let mm = two_digits(m.month as int);
    let yy = four_digits(m.year as int);
    let hh = two_digits(m.hour as int);
    let mi = two_digits(m.minute as int);
    lemma_two_digits_read(m.day as int);
    lemma_two_digits_read(m.month as int);
    lemma_four_digits_read(m.year as int);
    lemma_two_digits_read(m.hour as int);
    lemma_two_digits_read(m.minute as int);
    assert(s.len() == 16);
    assert(s[0] == dd[0] && s[1] == dd[1] && s[2] == '.');
    assert(s[3] == mm[0] && s[4] == mm[1] && s[5] == '.');
    assert(s[6] == yy[0] && s[7] == yy[1] && s[8] == yy[2] && s[9] == yy[3]);
    assert(s[10] == ' ');
    assert(s[11] == hh[0] && s[12] == hh[1] && s[13] == ':');
    assert(s[14] == mi[0] && s[15] == mi[1]);
    assert(number2(s, 0) == number2(dd, 0));
    assert(number2(s, 3) == number2(mm, 0));
    assert(number4(s, 6) == number4(yy, 0));
    assert(number2(s, 11) == number2(hh, 0));
    assert(number2(s, 14) == number2(mi, 0));
}

/// What a marker composes to has the layout `DD.MM.YYYY HH:MM`.
pub proof fn lemma_compose_shaped(m: Marker, today: LocalDate)
    requires
        compose(m, today) is Some,
    ensures
        stamp_shaped(compose(m, today)->Some_0),
{
    let c = compose(m, today)->Some_0;
    match m.date {
        None => {
            let now = Moment { year: today.year, month: today.month, day: today.day, hour: 0, minute: 0 };
            lemma_read_of_render(now);
            assert(render_moment(now).subrange(0, 10) =~= render_date(today));
            assert(c.subrange(0, 10) =~= render_date(today));
            assert(forall|k: int| 0 <= k < 10 ==> c[k] == render_moment(now)[k]) by {
                assert(forall|k: int| 0 <= k < 10 ==> c[k] == c.subrange(0, 10)[k]);
                assert(forall|k: int|
                    0 <= k < 10 ==> render_moment(now)[k] == render_moment(now).subrange(0, 10)[k]);
            }
        },
        Some(d) => {
            if d.len() != 10 {
                lemma_four_digits_read(today.year as int);
                let yy = four_digits(today.year as int);
                assert(c[5] == '.');
                assert(c[6] == yy[0] && c[7] == yy[1] && c[8] == yy[2] && c[9] == yy[3]);
            }
        },
    }
}

/// Resolving keeps what the marker says: the timestamp is the very text that
/// the marker composes to, so it ends in the marker's time token, starts with
/// the marker's date token where there is one, and reads as the same calendar
/// date and clock time.
pub proof fn lemma_resolved_round_trip(m: Marker, today: LocalDate)
    requires
        resolved(m, today) is Ok,
    ensures
        Some(resolved(m, today)->Ok_0) == compose(m, today),
        read_stamp(resolved(m, today)->Ok_0) == read_stamp(compose(m, today)->Some_0),
        read_stamp(resolved(m, today)->Ok_0) is Some,
        resolved(m, today)->Ok_0.subrange(11, 16) == m.time,
        m.date is Some ==> resolved(m, today)->Ok_0.subrange(0, m.date->Some_0.len() as int)
            == m.date->Some_0,
{
    let c = compose(m, today)->Some_0;
    lemma_compose_shaped(m, today);
    lemma_render_of_read(c);
    assert(c.subrange(11, 16) =~= m.time);
    if m.date is Some {
        assert(c.subrange(0, m.date->Some_0.len() as int) =~= m.date->Some_0);
    }
}

/// A message with a marker that resolves is resolved to what its marker
/// says: the timestamp reads as a moment of the calendar, ends in the
/// marker's time token, and starts with the marker's date token where the
/// marker has one.
pub proof fn lemma_message_round_trip(text: Seq<char>, today: LocalDate)
    requires
        first_marker(text, 0) is Some,
        resolved(first_marker(text, 0)->Some_0, today) is Ok,
    ensures
        ({
            let m = first_marker(text, 0)->Some_0;
            let stamp = resolved(m, today)->Ok_0;
            &&& read_stamp(stamp) is Some
            &&& render_moment(read_stamp(stamp)->Some_0) == stamp
            &&& stamp.subrange(11, 16) == m.time
            &&& m.date is Some ==> stamp.subrange(0, m.date->Some_0.len() as int) == m.date->Some_0
        }),
{
    let m = first_marker(text, 0)->Some_0;
    lemma_resolved_round_trip(m, today);
    lemma_compose_shaped(m, today);
    lemma_render_of_read(resolved(m, today)->Ok_0);
}

/// The layout that a composed text, with `:00` for its seconds, is read by.
pub open spec fn seconds_layout() -> Seq<char> {
    "%d.%m.%Y %H:%M:%S"@
}

/// Reads `DD.MM.YYYY HH:MM:00` with chrono's `NaiveDateTime::parse_from_str`
/// and hands out the date and time that chrono found, as numbers.
///
/// Believed of chrono, not proved: on a text of exactly that layout, digit
/// by digit, with the layout string `%d.%m.%Y %H:%M:%S`, it succeeds exactly
/// when the day exists in the month of the (proleptic Gregorian) year, the
/// hour is at most 23 and the minute at most 59, and its result then holds
/// the numbers that the digits write.
#[verifier::external_body]
fn parse_naive(s: &str, layout: &str) -> (r: Option<Moment>)
    requires
        layout@ == seconds_layout(),
        s@.len() == 19,
        stamp_shaped(s@.subrange(0, 16)),
        s@.subrange(16, 19) == seq![':', '0', '0'],
    ensures
        r == read_stamp(s@.subrange(0, 16)),
{
    match chrono::NaiveDateTime::parse_from_str(s, layout) {
        Ok(t) => Some(
            Moment {
                year: t.year() as u32,
                month: t.month(),
                day: t.day(),
                hour: t.hour(),
                minute: t.minute(),
            },
        ),
        Err(_) => None,
    }
}

pub(crate) fn digit_str(d: u32) -> (r: &'static str)
    requires
        d < 10,
    ensures
        r@ == seq![digit_char(d as int)],
{
    proof {
        reveal_strlit("0");
        reveal_strlit("1");
        reveal_strlit("2");
        reveal_strlit("3");
        reveal_strlit("4");
        reveal_strlit("5");
        reveal_strlit("6");
        reveal_strlit("7");
        reveal_strlit("8");
        reveal_strlit("9");
    }
    let r = if d == 0 {
        "0"
    } else if d == 1 {
        "1"
    } else if d == 2 {
        "2"
    } else if d == 3 {
        "3"
    } else if d == 4 {
        "4"
    } else if d == 5 {
        "5"
    } else if d == 6 {
        "6"
    } else if d == 7 {
        "7"
    } else if d == 8 {
        "8"
    } else {
        "9"
    };
    assert(r@ =~= seq![digit_char(d as int)]);
    r
}

fn push_two(out: &mut String, v: u32)
    requires
        v < 100,
    ensures
        final(out)@ == old(out)@ + two_digits(v as int),
{
    out.append(digit_str(v / 10));
    out.append(digit_str(v % 10));
    assert(out@ =~= old(out)@ + two_digits(v as int));
}

fn push_four(out: &mut String, v: u32)
    requires
        v < 10000,
    ensures
        final(out)@ == old(out)@ + four_digits(v as int),
{
    push_two(out, v / 100);
    push_two(out, v % 100);
    assert(out@ =~= old(out)@ + four_digits(v as int));
}

fn push_sep(out: &mut String, sep: char)
    requires
        sep == '.' || sep == ' ' || sep == ':',
    ensures
        final(out)@ == old(out)@ + seq![sep],
{
    proof {
        reveal_strlit(".");
        reveal_strlit(" ");
        reveal_strlit(":");
    }
    let lit = if sep == '.' {
        "."
    } else if sep == ' ' {
        " "
    } else {
        ":"
    };
    assert(lit@ =~= seq![sep]);
    out.append(lit);
}

fn push_date(out: &mut String, d: LocalDate)
    requires
        date_writable(d),
    ensures
        final(out)@ == old(out)@ + render_date(d),
{
    push_two(out, d.day);
    push_sep(out, '.');
    push_two(out, d.month);
    push_sep(out, '.');
    push_four(out, d.year);
    assert(out@ =~= old(out)@ + render_date(d));
}

/// Writes a moment as `DD.MM.YYYY HH:MM`.
///
/// Returns `None` exactly when a number does not fit its place: a year above
/// 9999, or another number above 99.
pub fn format_moment(m: Moment) -> (r: Option<String>)
    ensures
        r is Some == moment_writable(m),
        r is Some ==> r->Some_0@ == render_moment(m),
{
    if m.day >= 100 || m.month >= 100 || m.year >= 10000 || m.hour >= 100 || m.minute >= 100 {
        return None;
    }
    let mut out = String::new();
    push_date(&mut out, LocalDate { year: m.year, month: m.month, day: m.day });
    push_sep(&mut out, ' ');
    push_two(&mut out, m.hour);
    push_sep(&mut out, ':');
    push_two(&mut out, m.minute);
    assert(out@ =~= render_moment(m));
    Some(out)
}

/// Composes the text `DD.MM.YYYY HH:MM` that the event's marker stands for.
fn compose_stamp(event: &Event, today: LocalDate) -> (r: Option<String>)
    ensures
        r is Some == compose(event.marker(), today) is Some,
        r is Some ==> r->Some_0@ == compose(event.marker(), today)->Some_0,
{
    let time = event.time.as_str();
    let tn: usize = time.unicode_len();
    if tn != 5 || !pair_here(time, tn, 0, ':') {
        return None;
    }
    match &event.date {
        None => {
            if today.day >= 100 || today.month >= 100 || today.year >= 10000 {
                return None;
            }
            let mut out = String::new();
            push_date(&mut out, today);
            push_sep(&mut out, ' ');
            out.append(time);
            assert(out@ =~= render_date(today) + seq![' '] + time@);
            Some(out)
        },
        Some(d) => {
            let date = d.as_str();
            let dn: usize = date.unicode_len();
            if !pair_here(date, dn, 0, '.') {
                return None;
            }
            if dn == 10 && year_here(date, dn, 5) {
                let mut out = date.to_owned();
                push_sep(&mut out, ' ');
                out.append(time);
                Some(out)
            } else if dn == 5 && today.year < 10000 {
                let mut out = date.to_owned();
                push_sep(&mut out, '.');
                push_four(&mut out, today.year);
                push_sep(&mut out, ' ');
                out.append(time);
                Some(out)
            } else {
                None
            }
        },
    }
}

/// Resolves the marker of an event into a timestamp `DD.MM.YYYY HH:MM`.
///
/// A missing date is `today`; a missing year is today's year. The tokens must
/// have the grammar's shapes, and the date and time they name must exist:
/// otherwise the result is `InvalidTimestamp`.
pub fn resolve_timestamp(event: &Event, today: LocalDate) -> (r: Result<String, ResolveError>)
    ensures
        r is Ok == resolved(event.marker(), today) is Ok,
        r is Ok ==> r->Ok_0@ == resolved(event.marker(), today)->Ok_0,
        r is Ok ==> Some(r->Ok_0@) == compose(event.marker(), today),
        r is Ok ==> read_stamp(r->Ok_0@) is Some,
        r is Err ==> r->Err_0 == ResolveError::InvalidTimestamp,
{
    match compose_stamp(event, today) {
        None => Err(ResolveError::InvalidTimestamp),
        Some(composed) => {
            proof {
                lemma_compose_shaped(event.marker(), today);
                reveal_strlit(":00");
            }
            let mut full = composed.clone();
            full.append(":00");
            assert(full@.subrange(0, 16) =~= composed@);
            assert(full@.subrange(16, 19) =~= seq![':', '0', '0']);
            match parse_naive(full.as_str(), "%d.%m.%Y %H:%M:%S") {
                None => Err(ResolveError::InvalidTimestamp),
                Some(moment) => {
                    proof {
                        lemma_render_of_read(composed@);
                        lemma_resolved_round_trip(event.marker(), today);
                    }
                    match format_moment(moment) {
                        Some(stamp) => Ok(stamp),
                        None => Err(ResolveError::InvalidTimestamp),
                    }
                },
            }
        },
    }
}

} // verus!
