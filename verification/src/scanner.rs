//! The due-event scanner: what a scan at one minute finds, what is sent for
//! each event found, and the store after the deliveries.

use crate::stamp::{format_moment, moment_writable, render_moment, Moment};
use crate::store::{
    delivered_row, due_events, due_upto, is_delivered, is_due, notices, owner_of, with_delivered,
    EventStore, Notice, NotificationEvent, StoreView,
};
use vstd::prelude::*;

verus! {

/// The text of the notification for a due event: a heading, the event's
/// text, and its time.
pub open spec fn notification_view(n: Notice) -> Seq<char> {
    "🔔 Напоминание!\n"@ + n.text + "\nВремя: "@ + n.event_time
}

/// Writes the notification for a due event.
pub fn notification_text(event: &NotificationEvent) -> (r: String)
    ensures
        r@ == notification_view(event@),
{
    let mut out: String = "🔔 Напоминание!\n".to_owned();
    out.append(event.text.as_str());
    out.append("\nВремя: ");
    out.append(event.event_time.as_str());
    out
}

/// The store after the deliveries for the first `n` of the events found.
pub open spec fn settled(v: StoreView, found: Seq<Notice>, n: int) -> StoreView
    decreases n,
{
    if n <= 0 {
        v
    } else {
        with_delivered(settled(v, found, n - 1), found[n - 1].telegram_id, found[n - 1].event_time)
    }
}

/// The store after a scan at `now` and the delivery of every event found.
pub open spec fn after_scan(v: StoreView, now: Seq<char>) -> StoreView {
    settled(v, due_events(v, now), due_events(v, now).len() as int)
}

/// The notification that a scan hands out for a due event.
pub open spec fn notice_of(v: StoreView, e: crate::store::EventRow) -> Notice {
    Notice { telegram_id: owner_of(v, e), text: e.text, event_time: e.event_time }
}

/// Deliveries change nothing but timestamps, and those only to the sentinel.
pub proof fn lemma_settled_shape(v: StoreView, found: Seq<Notice>, n: int)
    ensures
        settled(v, found, n).users == v.users,
        settled(v, found, n).events.len() == v.events.len(),
        forall|k: int|
            0 <= k < v.events.len() ==> {
                let e = #[trigger] settled(v, found, n).events[k];
                &&& e.user_id == v.events[k].user_id
                &&& e.text == v.events[k].text
                &&& (e.event_time == v.events[k].event_time || is_delivered(e))
            },
    decreases n,
{
    if n > 0 {
        lemma_settled_shape(v, found, n - 1);
        let prev = settled(v, found, n - 1);
        let next = settled(v, found, n);
        assert forall|k: int| 0 <= k < v.events.len() implies {
            let e = #[trigger] next.events[k];
            &&& e.user_id == v.events[k].user_id
            &&& e.text == v.events[k].text
            &&& (e.event_time == v.events[k].event_time || is_delivered(e))
        } by {
            assert(next.events[k] == delivered_row(
                prev,
                prev.events[k],
                found[n - 1].telegram_id,
                found[n - 1].event_time,
            ));
        }
    }
}

/// An event that is delivered after some of the deliveries is delivered
/// after more of them.
pub proof fn lemma_settled_keeps_delivered(v: StoreView, found: Seq<Notice>, i: int, n: int, k: int)
    requires
        i <= n,
        0 <= k < v.events.len(),
        is_delivered(settled(v, found, i).events[k]),
    ensures
        is_delivered(settled(v, found, n).events[k]),
    decreases n - i,
{
    if i < n {
        lemma_settled_keeps_delivered(v, found, i, n - 1, k);
        lemma_settled_shape(v, found, n - 1);
        let prev = settled(v, found, n - 1);
        assert(settled(v, found, n).events[k] == delivered_row(
            prev,
            prev.events[k],
            found[n - 1].telegram_id,
            found[n - 1].event_time,
        ));
    }
}

/// A scan finds every event that is due.
pub proof fn lemma_due_is_found(v: StoreView, now: Seq<char>, n: int, k: int)
    requires
        0 <= k < n,
        is_due(v.events[k], now),
    ensures
        exists|i: int|
            0 <= i < due_upto(v, now, n).len() && due_upto(v, now, n)[i] == notice_of(
                v,
                v.events[k],
            ),
    decreases n,
{
    let prev = due_upto(v, now, n - 1);
    if k == n - 1 {
        assert(due_upto(v, now, n)[prev.len() as int] == notice_of(v, v.events[k]));
    } else {
        lemma_due_is_found(v, now, n - 1, k);
        let i = choose|i: int| 0 <= i < prev.len() && prev[i] == notice_of(v, v.events[k]);
        assert(due_upto(v, now, n)[i] == notice_of(v, v.events[k]));
    }
}

/// A scan finds nothing where no event is due.
pub proof fn lemma_none_due(v: StoreView, now: Seq<char>, n: int)
    requires
        n <= v.events.len(),
        forall|k: int| 0 <= k < v.events.len() ==> !is_due(#[trigger] v.events[k], now),
    ensures
        due_upto(v, now, n).len() == 0,
    decreases n,
{
    if n > 0 {
        lemma_none_due(v, now, n - 1);
    }
}

/// One scan delivers every event that is due at its minute: two events of
/// one user at the same minute are delivered by the same scan.
pub proof fn lemma_scan_delivers_all_due(v: StoreView, now: Seq<char>, k: int)
    requires
        0 <= k < v.events.len(),
        is_due(v.events[k], now),
    ensures
        is_delivered(after_scan(v, now).events[k]),
{
    let found = due_events(v, now);
    lemma_due_is_found(v, now, v.events.len() as int, k);
    let i = choose|i: int| 0 <= i < found.len() && found[i] == notice_of(v, v.events[k]);
    lemma_settled_shape(v, found, i);
    let prev = settled(v, found, i);
    assert(settled(v, found, i + 1).events[k] == delivered_row(
        prev,
        prev.events[k],
        found[i].telegram_id,
        found[i].event_time,
    ));
    lemma_settled_keeps_delivered(v, found, i + 1, found.len() as int, k);
}

/// An event that was delivered before a scan is delivered after it, and a
/// second scan at the same minute finds nothing.
pub proof fn lemma_second_scan_finds_nothing(v: StoreView, now: Seq<char>)
    ensures
        due_events(after_scan(v, now), now).len() == 0,
        forall|k: int|
            0 <= k < v.events.len() && is_delivered(#[trigger] v.events[k]) ==> is_delivered(
                after_scan(v, now).events[k],
            ),
{
    let found = due_events(v, now);
    let after = after_scan(v, now);
    lemma_settled_shape(v, found, found.len() as int);
    assert forall|k: int| 0 <= k < after.events.len() implies !is_due(
        #[trigger] after.events[k],
        now,
    ) by {
        if is_due(v.events[k], now) {
            lemma_scan_delivers_all_due(v, now, k);
        }
    }
    lemma_none_due(after, now, after.events.len() as int);
}

/// Marks as delivered each of the events found, in their order.
pub fn settle(store: &mut EventStore, found: &Vec<NotificationEvent>)
    requires
        old(store).wf(),
    ensures
        final(store).wf(),
        final(store)@ == settled(old(store)@, notices(found@), found@.len() as int),
{
    let n: usize = found.len();
    let mut k: usize = 0;
    while k < n
        invariant
            n == found.len(),
            k <= n,
            store.wf(),
            store@ == settled(old(store)@, notices(found@), k as int),
        decreases n - k,
    {
        store.mark_delivered(found[k].telegram_id, found[k].event_time.as_str());
        k = k + 1;
    }
}

/// Scans the store at the moment `now` and delivers: finds the events that
/// are due, marks each of them delivered, and hands out what is to be sent.
///
/// Returns `None`, and changes nothing, exactly when `now` cannot be written
/// as a timestamp.
pub fn scan_tick(store: &mut EventStore, now: Moment) -> (r: Option<Vec<NotificationEvent>>)
    requires
        old(store).wf(),
    ensures
        final(store).wf(),
        r is Some == moment_writable(now),
        r is None ==> final(store)@ == old(store)@,
        r is Some ==> notices(r->Some_0@) == due_events(old(store)@, render_moment(now))
            && final(store)@ == after_scan(old(store)@, render_moment(now)),
{
    match format_moment(now) {
        None => None,
        Some(stamp) => {
            let found = store.find_due(stamp.as_str());
            settle(store, &found);
            Some(found)
        },
    }
}

} // verus!
