//! The inbound handler: what one incoming message does to the store, and the
//! reply it gets.

use crate::marker::{first_marker, parse_event, Event, Marker};
use crate::stamp::{
    digit_char, digit_str, resolve_timestamp, resolved, LocalDate, ResolveError,
};
use crate::store::{
    ascending, ensured_id, events_of, listed, user_known, with_event, with_user, name_view,
    EventStore, Listed, UserEvent,
};
use vstd::prelude::*;

verus! {

/// Why an event was not saved.
#[derive(Clone, Copy, Debug, PartialEq, Eq, Structural)]
pub enum SaveError {
    /// The marker names no moment of the calendar.
    InvalidTimestamp,
    /// No user has the internal id.
    UnknownUser,
}

/// What the handler answers to a message.
#[derive(Debug)]
pub enum Reply {
    /// The sender's events, in the order of the listing.
    Listing(Vec<UserEvent>),
    /// The event was saved, pending at `event_time`.
    Saved { date: Option<String>, time: String, text: String, event_time: String },
    /// The message held no marker: how to write one.
    Help,
    /// The marker names no moment of the calendar; nothing was saved.
    InvalidTimestamp,
    /// The store could not take the event; nothing was saved.
    StoreFailure,
}

/// The message that asks for the listing.
pub open spec fn listing_command() -> Seq<char> {
    "/events"@
}

/// What saving an event answers: the timestamp that the event is pending at,
/// or why it was not saved.
pub open spec fn save_result(
    v: crate::store::StoreView,
    user_id: i64,
    m: Marker,
    today: LocalDate,
) -> Result<Seq<char>, SaveError> {
    match resolved(m, today) {
        Err(_) => Err(SaveError::InvalidTimestamp),
        Ok(stamp) => if user_known(v, user_id) {
            Ok(stamp)
        } else {
            Err(SaveError::UnknownUser)
        },
    }
}

/// The store after saving an event for the user with the internal id.
pub open spec fn with_saved(
    v: crate::store::StoreView,
    user_id: i64,
    text: Seq<char>,
    m: Marker,
    today: LocalDate,
) -> crate::store::StoreView {
    match resolved(m, today) {
        Ok(stamp) => with_event(v, user_id, text, stamp),
        Err(_) => v,
    }
}

/// Saves an event for the user with the internal id: resolves its marker on
/// the day `today`, and adds the event, pending at the resolved timestamp,
/// with the whole message as its text.
///
/// Returns the timestamp that the event is pending at. Nothing is saved when
/// the marker names no moment of the calendar, or when no user has the id.
pub fn save_event(store: &mut EventStore, user_id: i64, event: &Event, today: LocalDate) -> (r:
    Result<String, SaveError>)
    requires
        old(store).wf(),
    ensures
        final(store).wf(),
        r is Ok == save_result(old(store)@, user_id, event.marker(), today) is Ok,
        r is Ok ==> r->Ok_0@ == save_result(old(store)@, user_id, event.marker(), today)->Ok_0,
        r is Err ==> Err::<Seq<char>, SaveError>(r->Err_0) == save_result(
            old(store)@,
            user_id,
            event.marker(),
            today,
        ),
        final(store)@ == with_saved(old(store)@, user_id, event.text@, event.marker(), today),
{
    match resolve_timestamp(event, today) {
        Err(_) => Err(SaveError::InvalidTimestamp),
        Ok(stamp) => match store.create_event(user_id, event.text.clone(), stamp.clone()) {
            Ok(()) => Ok(stamp),
            Err(_) => Err(SaveError::UnknownUser),
        },
    }
}

fn same_text(a: &str, b: &str) -> (r: bool)
    ensures
        r == (a@ == b@),
{
    a.to_owned() == b.to_owned()
}

fn copy_of(name: &Option<String>) -> (r: Option<String>)
    ensures
        r == *name,
{
    match name {
        Some(n) => Some(n.clone()),
        None => None,
    }
}

/// The store after a message from `sender`.
pub open spec fn after_message(
    v: crate::store::StoreView,
    sender: i64,
    name: Option<Seq<char>>,
    text: Seq<char>,
    today: LocalDate,
) -> crate::store::StoreView {
    if text == listing_command() {
        v
    } else {
        match first_marker(text, 0) {
            None => v,
            Some(m) => match ensured_id(v, sender) {
                Err(_) => v,
                Ok(id) => with_saved(with_user(v, sender, name), id, text, m, today),
            },
        }
    }
}

/// The reply that a message from `sender` gets from the store `v`.
///
/// The listing command gets the sender's events, each once, ascending by
/// timestamp. A message without a marker gets the help. A message with a
/// marker gets the marker's tokens and its own text back if the event was
/// saved, and else the failure that kept it from being saved.
pub open spec fn reply_fits(
    r: Reply,
    v: crate::store::StoreView,
    sender: i64,
    text: Seq<char>,
    today: LocalDate,
) -> bool {
    if text == listing_command() {
        r matches Reply::Listing(l) && ascending(listed(l@)) && listed(l@).to_multiset()
            == events_of(v, sender).to_multiset() && l@.len() == events_of(v, sender).len()
    } else {
        match first_marker(text, 0) {
            None => r is Help,
            Some(m) => if ensured_id(v, sender) is Err {
                r is StoreFailure
            } else if resolved(m, today) is Err {
                r is InvalidTimestamp
            } else {
                r matches Reply::Saved { date, time, text: saved, event_time } && name_view(date)
                    == m.date && time@ == m.time && saved@ == text && Ok::<Seq<char>, ResolveError>(
                    event_time@,
                ) == resolved(m, today)
            },
        }
    }
}

/// Handles one message from `sender`.
///
/// The listing command lists the sender's events and changes nothing. A
/// message with a marker ensures the sender as a user, then resolves the
/// marker, then saves the event; the reply tells the marker's tokens and the
/// text. A marker that names no moment of the calendar leaves the user
/// ensured and saves no event. Any other message gets the help and changes
/// nothing.
pub fn handle_message(
    store: &mut EventStore,
    sender: i64,
    name: Option<String>,
    text: &str,
    today: LocalDate,
) -> (r: Reply)
    requires
        old(store).wf(),
    ensures
        final(store).wf(),
        final(store)@ == after_message(old(store)@, sender, name_view(name), text@, today),
        reply_fits(r, old(store)@, sender, text@, today),
{
    if same_text(text, "/events") {
        return Reply::Listing(store.list_events(sender));
    }
    match parse_event(text) {
        None => Reply::Help,
        Some(event) => match store.ensure_user(sender, name) {
            Err(_) => Reply::StoreFailure,
            Ok(id) => match save_event(store, id, &event, today) {
                Ok(stamp) => Reply::Saved {
                    date: copy_of(&event.date),
                    time: event.time.clone(),
                    text: event.text.clone(),
                    event_time: stamp,
                },
                Err(SaveError::InvalidTimestamp) => Reply::InvalidTimestamp,
                Err(SaveError::UnknownUser) => Reply::StoreFailure,
            },
        },
    }
}

/// Handles what came in from `sender`: a message without text does nothing
/// and gets no reply; a message with text is handled as `handle_message` says.
pub fn handle_update(
    store: &mut EventStore,
    sender: i64,
    name: Option<String>,
    text: Option<&str>,
    today: LocalDate,
) -> (r: Option<Reply>)
    requires
        old(store).wf(),
    ensures
        final(store).wf(),
        r is Some == text is Some,
        text is None ==> final(store)@ == old(store)@,
        text is Some ==> final(store)@ == after_message(
            old(store)@,
            sender,
            name_view(name),
            text->Some_0@,
            today,
        ) && reply_fits(r->Some_0, old(store)@, sender, text->Some_0@, today),
{
    match text {
        None => None,
        Some(t) => Some(handle_message(store, sender, name, t, today)),
    }
}

/// A number in decimal digits.
pub open spec fn decimal(n: nat) -> Seq<char>
    decreases n,
{
    if n < 10 {
        seq![digit_char(n as int)]
    } else {
        decimal(n / 10).push(digit_char((n % 10) as int))
    }
}

/// The line of a listing for the entry with the number `n`:
/// the number, the timestamp and the text.
pub open spec fn listing_line(n: nat, row: Listed) -> Seq<char> {
    decimal(n) + ". "@ + row.event_time + " - "@ + row.text
}

/// The lines of a listing, one for each entry, numbered from 1.
pub open spec fn listing_entries(rows: Seq<Listed>) -> Seq<Seq<char>> {
    Seq::new(rows.len(), |i: int| listing_line((i + 1) as nat, rows[i]))
}

/// The first `n` lines, each but the first after a line feed.
pub open spec fn joined(lines: Seq<Seq<char>>, n: int) -> Seq<char>
    decreases n,
{
    if n <= 0 {
        Seq::empty()
    } else if n == 1 {
        lines[0]
    } else {
        joined(lines, n - 1) + seq!['\n'] + lines[n - 1]
    }
}

/// What a user without events is told.
pub open spec fn no_events_text() -> Seq<char> {
    "У вас пока нет запланированных событий"@
}

/// The line above a listing.
pub open spec fn listing_header() -> Seq<char> {
    "Ваши события:\n"@
}

/// The text of a listing: for no entries the message that there are none,
/// else the header and one line for each entry.
pub open spec fn listing_text(rows: Seq<Listed>) -> Seq<char> {
    if rows.len() == 0 {
        no_events_text()
    } else {
        listing_header() + joined(listing_entries(rows), rows.len() as int)
    }
}

/// The text of the help.
pub open spec fn help_text() -> Seq<char> {
    "Привет! Чтобы создать событие, используйте форматы:\n@ЧЧ:ММ - событие на сегодня\n@ДД.ММ ЧЧ:ММ - событие на конкретную дату\n@ДД.ММ.ГГГГ ЧЧ:ММ - событие на конкретную дату с годом"@
}

/// What the sender of a marker that names no moment of the calendar is told.
pub open spec fn invalid_timestamp_text() -> Seq<char> {
    "Не удалось распознать дату или время события"@
}

/// What the sender is told when the store could not take the event.
pub open spec fn store_failure_text() -> Seq<char> {
    "Не удалось сохранить событие, попробуйте позже"@
}

/// What the sender of a saved event is told: the marker's date, or that it
/// is today, the marker's time, and the text.
pub open spec fn saved_text(date: Option<Seq<char>>, time: Seq<char>, text: Seq<char>) -> Seq<char> {
    match date {
        Some(d) => "Сохранено событие на "@ + d + " в "@ + time + "\nТекст события: "@ + text,
        None => "Сохранено событие на сегодня в "@ + time + "\nТекст события: "@ + text,
    }
}

/// The text of a reply.
pub open spec fn reply_view(r: Reply) -> Seq<char> {
    match r {
        Reply::Listing(l) => listing_text(listed(l@)),
        Reply::Saved { date, time, text, event_time } => saved_text(name_view(date), time@, text@),
        Reply::Help => help_text(),
        Reply::InvalidTimestamp => invalid_timestamp_text(),
        Reply::StoreFailure => store_failure_text(),
    }
}

/// A listing of no events is the message that there are none; a listing of
/// events has one line for each of them, in their order, and an ascending
/// listing has them ascending by timestamp.
pub proof fn lemma_listing_lines(rows: Seq<Listed>)
    ensures
        rows.len() == 0 ==> listing_text(rows) == no_events_text(),
        rows.len() > 0 ==> listing_text(rows) == listing_header() + joined(
            listing_entries(rows),
            rows.len() as int,
        ),
        listing_entries(rows).len() == rows.len(),
        forall|i: int|
            0 <= i < rows.len() ==> #[trigger] listing_entries(rows)[i] == listing_line(
                (i + 1) as nat,
                rows[i],
            ),
        ascending(rows) ==> forall|i: int, j: int|
            0 <= i <= j < rows.len() ==> crate::store::lex_le(
                #[trigger] rows[i].event_time,
                #[trigger] rows[j].event_time,
            ),
{
    if ascending(rows) {
        assert forall|i: int, j: int| 0 <= i <= j < rows.len() implies crate::store::lex_le(
            #[trigger] rows[i].event_time,
            #[trigger] rows[j].event_time,
        ) by {
            crate::store::lemma_ascending_all_pairs(rows, i, j);
        }
    }
}

fn push_decimal(out: &mut String, n: usize)
    ensures
        final(out)@ == old(out)@ + decimal(n as nat),
    decreases n,
{
    if n < 10 {
        out.append(digit_str(n as u32));
    } else {
        push_decimal(out, n / 10);
        out.append(digit_str((n % 10) as u32));
        assert(out@ =~= old(out)@ + decimal(n as nat));
    }
}

/// Writes a listing: for no entries the message that there are none, else the
/// header and the lines `{n}. {timestamp} - {text}`, numbered from 1 in the
/// order of the entries, with a line feed between two lines.
pub fn render_listing(events: &Vec<UserEvent>) -> (r: String)
    ensures
        r@ == listing_text(listed(events@)),
{
    let n: usize = events.len();
    if n == 0 {
        return "У вас пока нет запланированных событий".to_owned();
    }
    let ghost lines = listing_entries(listed(events@));
    let mut out: String = "Ваши события:\n".to_owned();
    let mut k: usize = 0;
    assert(out@ =~= listing_header() + joined(lines, 0));
    while k < n
        invariant
            n == events.len(),
            k <= n,
            lines == listing_entries(listed(events@)),
            out@ == listing_header() + joined(lines, k as int),
        decreases n - k,
    {
        let ghost before = out@;
        if k > 0 {
            proof {
                reveal_strlit("\n");
            }
            out.append("\n");
            assert(out@ =~= before + seq!['\n']);
        }
        let ghost start = out@;
        push_decimal(&mut out, k + 1);
        out.append(". ");
        out.append(events[k].event_time.as_str());
        out.append(" - ");
        out.append(events[k].text.as_str());
        proof {
            assert(lines[k as int] == listing_line((k + 1) as nat, listed(events@)[k as int]));
            assert(out@ =~= start + lines[k as int]);
            assert(out@ =~= listing_header() + joined(lines, k + 1));
        }
        k = k + 1;
    }
    out
}

/// Writes the text of a reply.
pub fn reply_text(reply: &Reply) -> (r: String)
    ensures
        r@ == reply_view(*reply),
{
    match reply {
        Reply::Listing(l) => render_listing(l),
        Reply::Saved { date, time, text, event_time: _ } => {
            let mut out: String = match date {
                Some(d) => {
                    let mut head = "Сохранено событие на ".to_owned();
                    head.append(d.as_str());
                    head.append(" в ");
                    head
                },
                None => "Сохранено событие на сегодня в ".to_owned(),
            };
            out.append(time.as_str());
            out.append("\nТекст события: ");
            out.append(text.as_str());
            assert(out@ =~= saved_text(name_view(*date), time@, text@));
            out
        },
        Reply::Help => {
            "Привет! Чтобы создать событие, используйте форматы:\n@ЧЧ:ММ - событие на сегодня\n@ДД.ММ ЧЧ:ММ - событие на конкретную дату\n@ДД.ММ.ГГГГ ЧЧ:ММ - событие на конкретную дату с годом".to_owned()
        },
        Reply::InvalidTimestamp => "Не удалось распознать дату или время события".to_owned(),
        Reply::StoreFailure => "Не удалось сохранить событие, попробуйте позже".to_owned(),
    }
}

} // verus!
