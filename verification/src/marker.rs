//! The marker grammar: `@HH:MM`, `@DD.MM HH:MM` and `@DD.MM.YYYY HH:MM`.
//!
//! A marker may stand anywhere in a message. The grammar looks at shape only:
//! `@31.02 25:99` is a marker, and whether it names a real moment is decided
//! when the marker is resolved.

use vstd::prelude::*;

verus! {

/// What a message with a marker says: the whole message, the marker's time
/// token, and its date token where it has one.
#[derive(Debug)]
pub struct Event {
    pub text: String,
    pub time: String,
    pub date: Option<String>,
}

/// The tokens of a marker: the date token, where there is one, and the time
/// token.
pub struct Marker {
    pub date: Option<Seq<char>>,
    pub time: Seq<char>,
}

impl Event {
    /// The marker tokens that the event carries.
    pub open spec fn marker(&self) -> Marker {
        Marker {
            date: match self.date {
                Some(d) => Some(d@),
                None => None,
            },
            time: self.time@,
        }
    }
}

/// An ASCII decimal digit.
pub open spec fn is_digit(c: char) -> bool {
    '0' <= c && c <= '9'
}

/// A white-space character (the Unicode property `White_Space`).
pub open spec fn is_space(c: char) -> bool {
    ||| ('\u{9}' <= c && c <= '\u{d}')
    ||| c == ' '
    ||| c == '\u{85}'
    ||| c == '\u{a0}'
    ||| c == '\u{1680}'
    ||| ('\u{2000}' <= c && c <= '\u{200a}')
    ||| c == '\u{2028}'
    ||| c == '\u{2029}'
    ||| c == '\u{202f}'
    ||| c == '\u{205f}'
    ||| c == '\u{3000}'
}

/// Two digits, a separator, two digits, starting at `i`.
pub open spec fn pair_at(s: Seq<char>, i: int, sep: char) -> bool {
    &&& 0 <= i
    &&& i + 5 <= s.len()
    &&& is_digit(s[i])
    &&& is_digit(s[i + 1])
    &&& s[i + 2] == sep
    &&& is_digit(s[i + 3])
    &&& is_digit(s[i + 4])
}

/// A time token `HH:MM` starts at `i`.
pub open spec fn time_at(s: Seq<char>, i: int) -> bool {
    pair_at(s, i, ':')
}

/// A day and month `DD.MM` start at `i`.
pub open spec fn day_month_at(s: Seq<char>, i: int) -> bool {
    pair_at(s, i, '.')
}

/// A year part `.YYYY` starts at `i`.
pub open spec fn year_at(s: Seq<char>, i: int) -> bool {
    &&& 0 <= i
    &&& i + 5 <= s.len()
    &&& s[i] == '.'
    &&& is_digit(s[i + 1])
    &&& is_digit(s[i + 2])
    &&& is_digit(s[i + 3])
    &&& is_digit(s[i + 4])
}

/// The first position from `i` on that holds no white space (the length of
/// `s` where there is none).
pub open spec fn skip_spaces(s: Seq<char>, i: int) -> int
    decreases s.len() - i,
{
    if 0 <= i && i < s.len() && is_space(s[i]) {
        skip_spaces(s, i + 1)
    } else {
        i
    }
}

/// The marker that starts with the `@` at position `p`, if one does.
///
/// After the `@` comes either the time token at once, or a date token
/// (`DD.MM`, with `.YYYY` where it follows), at least one white-space
/// character, and the time token.
pub open spec fn marker_at(s: Seq<char>, p: int) -> Option<Marker> {
    if !(0 <= p && p < s.len() && s[p] == '@') {
        None
    } else if day_month_at(s, p + 1) {
        let end = if year_at(s, p + 6) { p + 11 } else { p + 6 };
        let t = skip_spaces(s, end);
        if t > end && time_at(s, t) {
            Some(Marker { date: Some(s.subrange(p + 1, end)), time: s.subrange(t, t + 5) })
        } else {
            None
        }
    } else if time_at(s, p + 1) {
        Some(Marker { date: None, time: s.subrange(p + 1, p + 6) })
    } else {
        None
    }
}

/// The leftmost marker of `s` that starts at `from` or later.
pub open spec fn first_marker(s: Seq<char>, from: int) -> Option<Marker>
    decreases s.len() - from,
{
    if from < 0 || from >= s.len() {
        None
    } else if marker_at(s, from) is Some {
        marker_at(s, from)
    } else {
        first_marker(s, from + 1)
    }
}

/// The shape of a time token: `HH:MM` and nothing else.
pub open spec fn is_time_token(t: Seq<char>) -> bool {
    t.len() == 5 && time_at(t, 0)
}

/// The shape of a date token: `DD.MM` or `DD.MM.YYYY` and nothing else.
pub open spec fn is_date_token(d: Seq<char>) -> bool {
    day_month_at(d, 0) && (d.len() == 5 || (d.len() == 10 && year_at(d, 5)))
}

/// The tokens of a marker have the shapes of the grammar.
pub open spec fn marker_shaped(m: Marker) -> bool {
    &&& is_time_token(m.time)
    &&& match m.date {
        Some(d) => is_date_token(d),
        None => true,
    }
}

/// Every marker that the grammar finds has tokens of the grammar's shapes.
pub proof fn lemma_marker_at_shaped(s: Seq<char>, p: int)
    requires
        marker_at(s, p) is Some,
    ensures
        marker_shaped(marker_at(s, p)->Some_0),
{
    lemma_skip_spaces_bounds(s, p + 6);
    lemma_skip_spaces_bounds(s, p + 11);
}

/// The leftmost marker is a marker at some position, and no position before
/// that one holds a marker.
pub proof fn lemma_first_marker_leftmost(s: Seq<char>, from: int)
    requires
        0 <= from,
    ensures
        first_marker(s, from) is Some ==> exists|p: int|
            from <= p && p < s.len() && marker_at(s, p) == first_marker(s, from) && (forall|q: int|
                from <= q && q < p ==> (#[trigger] marker_at(s, q)) is None),
        first_marker(s, from) is None ==> forall|q: int|
            from <= q ==> (#[trigger] marker_at(s, q)) is None,
    decreases s.len() - from,
{
    if from < s.len() {
        if marker_at(s, from) is Some {
            assert(marker_at(s, from) == first_marker(s, from));
        } else {
            lemma_first_marker_leftmost(s, from + 1);
            if first_marker(s, from) is Some {
                let p = choose|p: int|
                    from + 1 <= p && p < s.len() && marker_at(s, p) == first_marker(s, from + 1)
                        && (forall|q: int|
                        from + 1 <= q && q < p ==> (#[trigger] marker_at(s, q)) is None);
                assert(forall|q: int| from <= q && q < p ==> (#[trigger] marker_at(s, q)) is None);
            }
        }
    }
}

/// `skip_spaces` moves forward only, and stops at the end of the text.
pub proof fn lemma_skip_spaces_bounds(s: Seq<char>, i: int)
    requires
        0 <= i,
    ensures
        i <= skip_spaces(s, i),
        i <= s.len() ==> skip_spaces(s, i) <= s.len(),
    decreases s.len() - i,
{
    if i < s.len() && is_space(s[i]) {
        lemma_skip_spaces_bounds(s, i + 1);
    }
}

fn digit_here(text: &str, i: usize) -> (r: bool)
    requires
        i < text@.len(),
    ensures
        r == is_digit(text@[i as int]),
{
    let c: char = text.get_char(i);
    '0' <= c && c <= '9'
}

fn space_here(text: &str, i: usize) -> (r: bool)
    requires
        i < text@.len(),
    ensures
        r == is_space(text@[i as int]),
{
    let c: char = text.get_char(i);
    ('\u{9}' <= c && c <= '\u{d}') || c == ' ' || c == '\u{85}' || c == '\u{a0}' || c
        == '\u{1680}' || ('\u{2000}' <= c && c <= '\u{200a}') || c == '\u{2028}' || c
        == '\u{2029}' || c == '\u{202f}' || c == '\u{205f}' || c == '\u{3000}'
}

pub(crate) fn pair_here(text: &str, n: usize, i: usize, sep: char) -> (r: bool)
    requires
        n == text@.len(),
        i <= n,
    ensures
        r == pair_at(text@, i as int, sep),
{
    if n - i < 5 {
        return false;
    }
    digit_here(text, i) && digit_here(text, i + 1) && text.get_char(i + 2) == sep && digit_here(
        text,
        i + 3,
    ) && digit_here(text, i + 4)
}

pub(crate) fn year_here(text: &str, n: usize, i: usize) -> (r: bool)
    requires
        n == text@.len(),
        i <= n,
    ensures
        r == year_at(text@, i as int),
{
    if n - i < 5 {
        return false;
    }
    text.get_char(i) == '.' && digit_here(text, i + 1) && digit_here(text, i + 2) && digit_here(
        text,
        i + 3,
    ) && digit_here(text, i + 4)
}

fn spaces_end(text: &str, n: usize, i: usize) -> (t: usize)
    requires
        n == text@.len(),
        i <= n,
    ensures
        t == skip_spaces(text@, i as int),
        i <= t <= n,
{
    let mut t: usize = i;
    while t < n && space_here(text, t)
        invariant
            n == text@.len(),
            i <= t <= n,
            skip_spaces(text@, i as int) == skip_spaces(text@, t as int),
        decreases n - t,
    {
        t = t + 1;
    }
    t
}

/// The marker that starts at position `p` of `text`, as an event.
fn marker_here(text: &str, n: usize, p: usize) -> (r: Option<Event>)
    requires
        n == text@.len(),
        p < n,
    ensures
        r is Some == marker_at(text@, p as int) is Some,
        r is Some ==> r->Some_0.text@ == text@ && r->Some_0.marker() == marker_at(
            text@,
            p as int,
        )->Some_0,
{
    if text.get_char(p) != '@' {
        return None;
    }
    if pair_here(text, n, p + 1, '.') {
        let end: usize = if year_here(text, n, p + 6) {
            p + 11
        } else {
            p + 6
        };
        let t: usize = spaces_end(text, n, end);
        if t > end && pair_here(text, n, t, ':') {
            Some(
                Event {
                    text: text.to_owned(),
                    time: text.substring_char(t, t + 5).to_owned(),
                    date: Some(text.substring_char(p + 1, end).to_owned()),
                },
            )
        } else {
            None
        }
    } else if pair_here(text, n, p + 1, ':') {
        Some(
            Event {
                text: text.to_owned(),
                time: text.substring_char(p + 1, p + 6).to_owned(),
                date: None,
            },
        )
    } else {
        None
    }
}

/// Finds the first marker of `text`.
///
/// Returns the event of the leftmost marker: the whole of `text` as its text,
/// and the marker's tokens. Returns `None` exactly when `text` holds no
/// marker; that is the ordinary case of a message that is plain chat.
pub fn parse_event(text: &str) -> (r: Option<Event>)
    ensures
        r is Some == first_marker(text@, 0) is Some,
        r is Some ==> r->Some_0.text@ == text@,
        r is Some ==> r->Some_0.marker() == first_marker(text@, 0)->Some_0,
        r is Some ==> marker_shaped(r->Some_0.marker()),
{
    let n: usize = text.unicode_len();
    let mut p: usize = 0;
    while p < n
        invariant
            n == text@.len(),
            p <= n,
            first_marker(text@, 0) == first_marker(text@, p as int),
        decreases n - p,
    {
        let found = marker_here(text, n, p);
        if found.is_some() {
            proof {
                lemma_marker_at_shaped(text@, p as int);
            }
            return found;
        }
        p = p + 1;
    }
    None
}

} // verus!
