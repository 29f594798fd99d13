//! The event store: users, their events, and the one transition an event
//! makes, from pending to delivered.
//!
//! A user's internal id is the user's place in the order of creation,
//! counted from 1. An event that has been delivered holds the sentinel in
//! place of its timestamp, and never leaves that state.

use vstd::prelude::*;

verus! {

/// A user of the store.
#[derive(Debug)]
pub struct User {
    pub telegram_id: i64,
    pub username: Option<String>,
}

/// An event as the store keeps it.
#[derive(Debug)]
pub struct StoredEvent {
    pub user_id: i64,
    pub text: String,
    pub event_time: String,
}

/// An event as a listing shows it.
#[derive(Debug)]
pub struct UserEvent {
    pub text: String,
    pub event_time: String,
}

/// An event that is due, with the external id of the user to notify.
#[derive(Debug)]
pub struct NotificationEvent {
    pub telegram_id: i64,
    pub text: String,
    pub event_time: String,
}

/// Why the store refused an operation.
#[derive(Clone, Copy, Debug, PartialEq, Eq, Structural)]
pub enum StoreError {
    /// The store cannot number another user.
    Unavailable,
    /// No user has the internal id that an event was to belong to.
    UnknownUser,
}

/// The users and events of a store.
pub struct EventStore {
    users: Vec<User>,
    events: Vec<StoredEvent>,
}

/// A user as mathematics.
pub struct UserRow {
    pub telegram_id: i64,
    pub username: Option<Seq<char>>,
}

/// A stored event as mathematics.
pub struct EventRow {
    pub user_id: i64,
    pub text: Seq<char>,
    pub event_time: Seq<char>,
}

/// An entry of a listing as mathematics.
pub struct Listed {
    pub text: Seq<char>,
    pub event_time: Seq<char>,
}

/// A due event as mathematics.
pub struct Notice {
    pub telegram_id: i64,
    pub text: Seq<char>,
    pub event_time: Seq<char>,
}

/// A store as mathematics: the users in the order of their creation, and the
/// events in the order of theirs.
pub struct StoreView {
    pub users: Seq<UserRow>,
    pub events: Seq<EventRow>,
}

/// A display name, if there is one, as mathematics.
pub open spec fn name_view(name: Option<String>) -> Option<Seq<char>> {
    match name {
        Some(n) => Some(n@),
        None => None,
    }
}

impl View for User {
    type V = UserRow;

    open spec fn view(&self) -> UserRow {
        UserRow { telegram_id: self.telegram_id, username: name_view(self.username) }
    }
}

impl View for StoredEvent {
    type V = EventRow;

    open spec fn view(&self) -> EventRow {
        EventRow { user_id: self.user_id, text: self.text@, event_time: self.event_time@ }
    }
}

impl View for UserEvent {
    type V = Listed;

    open spec fn view(&self) -> Listed {
        Listed { text: self.text@, event_time: self.event_time@ }
    }
}

impl View for NotificationEvent {
    type V = Notice;

    open spec fn view(&self) -> Notice {
        Notice { telegram_id: self.telegram_id, text: self.text@, event_time: self.event_time@ }
    }
}

/// What stands in the place of the timestamp of a delivered event.
pub open spec fn sentinel() -> Seq<char> {
    seq!['d', 'o', 'n', 'e']
}

/// The event has been delivered.
pub open spec fn is_delivered(e: EventRow) -> bool {
    e.event_time == sentinel()
}

/// The event is pending and its timestamp is `now`, character for character.
pub open spec fn is_due(e: EventRow, now: Seq<char>) -> bool {
    e.event_time == now && !is_delivered(e)
}

/// No two users share an external id, every event belongs to a user, and the
/// users can be numbered.
pub open spec fn store_wf(v: StoreView) -> bool {
    &&& v.users.len() <= i64::MAX
    &&& forall|i: int, j: int|
        0 <= i < j < v.users.len() ==> (#[trigger] v.users[i]).telegram_id != (
        #[trigger] v.users[j]).telegram_id
    &&& forall|k: int|
        0 <= k < v.events.len() ==> 1 <= (#[trigger] v.events[k]).user_id <= v.users.len()
}

/// A user with the external id stands at place `i`.
pub open spec fn user_at(v: StoreView, telegram_id: i64, i: int) -> bool {
    0 <= i < v.users.len() && v.users[i].telegram_id == telegram_id
}

/// The internal id of the user with the external id, if there is one.
pub open spec fn internal_id(v: StoreView, telegram_id: i64) -> Option<i64> {
    if exists|i: int| user_at(v, telegram_id, i) {
        Some(((choose|i: int| user_at(v, telegram_id, i)) + 1) as i64)
    } else {
        None
    }
}

/// The external id of the user that the event belongs to.
pub open spec fn owner_of(v: StoreView, e: EventRow) -> i64 {
    v.users[e.user_id - 1].telegram_id
}

/// The id that `ensure_user` answers with.
pub open spec fn ensured_id(v: StoreView, telegram_id: i64) -> Result<i64, StoreError> {
    match internal_id(v, telegram_id) {
        Some(id) => Ok(id),
        None => if v.users.len() < i64::MAX {
            Ok((v.users.len() + 1) as i64)
        } else {
            Err(StoreError::Unavailable)
        },
    }
}

/// The store after `ensure_user`: a user that is new is added at the end, and
/// nothing else changes.
pub open spec fn with_user(v: StoreView, telegram_id: i64, username: Option<Seq<char>>) -> StoreView {
    if internal_id(v, telegram_id) is None && v.users.len() < i64::MAX {
        StoreView { users: v.users.push(UserRow { telegram_id, username }), events: v.events }
    } else {
        v
    }
}

/// An event may be created for the internal id.
pub open spec fn user_known(v: StoreView, user_id: i64) -> bool {
    1 <= user_id <= v.users.len()
}

/// The store after `create_event`: the event is added at the end, pending
/// with the given timestamp, if its user is known.
pub open spec fn with_event(v: StoreView, user_id: i64, text: Seq<char>, event_time: Seq<char>) -> StoreView {
    if user_known(v, user_id) {
        StoreView { users: v.users, events: v.events.push(EventRow { user_id, text, event_time }) }
    } else {
        v
    }
}

/// The event belongs to the user with the external id and holds the timestamp.
pub open spec fn hit_by(v: StoreView, e: EventRow, telegram_id: i64, event_time: Seq<char>) -> bool {
    owner_of(v, e) == telegram_id && e.event_time == event_time
}

/// The event after a delivery to `telegram_id` for `event_time`.
pub open spec fn delivered_row(v: StoreView, e: EventRow, telegram_id: i64, event_time: Seq<char>) -> EventRow {
    if hit_by(v, e, telegram_id, event_time) {
        EventRow { user_id: e.user_id, text: e.text, event_time: sentinel() }
    } else {
        e
    }
}

/// The store after `mark_delivered`: every event of that user with that
/// timestamp holds the sentinel, and nothing else changes.
pub open spec fn with_delivered(v: StoreView, telegram_id: i64, event_time: Seq<char>) -> StoreView {
    StoreView {
        users: v.users,
        events: Seq::new(
            v.events.len(),
            |k: int| delivered_row(v, v.events[k], telegram_id, event_time),
        ),
    }
}

/// The due events among the first `n`, in the order of their creation.
pub open spec fn due_upto(v: StoreView, now: Seq<char>, n: int) -> Seq<Notice>
    decreases n,
{
    if n <= 0 {
        Seq::empty()
    } else {
        let e = v.events[n - 1];
        if is_due(e, now) {
            due_upto(v, now, n - 1).push(
                Notice { telegram_id: owner_of(v, e), text: e.text, event_time: e.event_time },
            )
        } else {
            due_upto(v, now, n - 1)
        }
    }
}

/// The events that are due at `now`.
pub open spec fn due_events(v: StoreView, now: Seq<char>) -> Seq<Notice> {
    due_upto(v, now, v.events.len() as int)
}

/// The events of a user among the first `n`, in the order of their creation.
pub open spec fn events_upto(v: StoreView, telegram_id: i64, n: int) -> Seq<Listed>
    decreases n,
{
    if n <= 0 {
        Seq::empty()
    } else {
        let e = v.events[n - 1];
        if owner_of(v, e) == telegram_id {
            events_upto(v, telegram_id, n - 1).push(
                Listed { text: e.text, event_time: e.event_time },
            )
        } else {
            events_upto(v, telegram_id, n - 1)
        }
    }
}

/// The events of a user, in the order of their creation.
pub open spec fn events_of(v: StoreView, telegram_id: i64) -> Seq<Listed> {
    events_upto(v, telegram_id, v.events.len() as int)
}

/// `a` comes before `b`, or is `b`, in the order of a dictionary, from
/// position `i` on.
pub open spec fn lex_le_from(a: Seq<char>, b: Seq<char>, i: int) -> bool
    decreases a.len() - i,
{
    if i < 0 || i >= a.len() {
        true
    } else if i >= b.len() {
        false
    } else if a[i] != b[i] {
        a[i] < b[i]
    } else {
        lex_le_from(a, b, i + 1)
    }
}

/// `a` comes before `b`, or is `b`, in the order of a dictionary.
pub open spec fn lex_le(a: Seq<char>, b: Seq<char>) -> bool {
    lex_le_from(a, b, 0)
}

/// Each entry's timestamp comes before the next one's, or is the same.
pub open spec fn ascending(s: Seq<Listed>) -> bool {
    forall|k: int| 0 <= k < s.len() - 1 ==> lex_le(#[trigger] s[k].event_time, s[k + 1].event_time)
}

/// The entries of a listing as mathematics.
pub open spec fn listed(s: Seq<UserEvent>) -> Seq<Listed> {
    s.map_values(|e: UserEvent| e@)
}

/// The notifications of a scan as mathematics.
pub open spec fn notices(s: Seq<NotificationEvent>) -> Seq<Notice> {
    s.map_values(|e: NotificationEvent| e@)
}

/// Of two texts, one comes before the other or they are the same.
pub proof fn lemma_lex_total(a: Seq<char>, b: Seq<char>, i: int)
    requires
        0 <= i,
    ensures
        lex_le_from(a, b, i) || lex_le_from(b, a, i),
    decreases a.len() - i,
{
    if i < a.len() && i < b.len() && a[i] == b[i] {
        lemma_lex_total(a, b, i + 1);
    }
}

/// Every text comes before itself, or is itself.
pub proof fn lemma_lex_reflexive(a: Seq<char>, i: int)
    requires
        0 <= i,
    ensures
        lex_le_from(a, a, i),
    decreases a.len() - i,
{
    if i < a.len() {
        lemma_lex_reflexive(a, i + 1);
    }
}

/// The order of the dictionary is transitive.
pub proof fn lemma_lex_transitive(a: Seq<char>, b: Seq<char>, c: Seq<char>, i: int)
    requires
        0 <= i,
        lex_le_from(a, b, i),
        lex_le_from(b, c, i),
    ensures
        lex_le_from(a, c, i),
    decreases a.len() - i,
{
    if i < a.len() && a[i] == b[i] && b[i] == c[i] {
        lemma_lex_transitive(a, b, c, i + 1);
    }
}

/// In an ascending listing no entry comes after a later one.
pub proof fn lemma_ascending_all_pairs(s: Seq<Listed>, i: int, j: int)
    requires
        ascending(s),
        0 <= i <= j < s.len(),
    ensures
        lex_le(s[i].event_time, s[j].event_time),
    decreases j - i,
{
    if i == j {
        lemma_lex_reflexive(s[i].event_time, 0);
    } else {
        lemma_ascending_all_pairs(s, i, j - 1);
        assert(lex_le(s[j - 1].event_time, s[j].event_time));
        lemma_lex_transitive(s[i].event_time, s[j - 1].event_time, s[j].event_time, 0);
    }
}

/// A user that was ensured is there once, and ensuring it again changes
/// nothing and gives the same internal id.
pub proof fn lemma_ensure_user_idempotent(
    v: StoreView,
    telegram_id: i64,
    first_name: Option<Seq<char>>,
    second_name: Option<Seq<char>>,
)
    requires
        store_wf(v),
        ensured_id(v, telegram_id) is Ok,
    ensures
        ({
            let once = with_user(v, telegram_id, first_name);
            &&& store_wf(once)
            &&& ensured_id(once, telegram_id) == ensured_id(v, telegram_id)
            &&& internal_id(once, telegram_id) is Some
            &&& with_user(once, telegram_id, second_name) == once
            &&& forall|i: int, j: int|
                user_at(once, telegram_id, i) && user_at(once, telegram_id, j) ==> i == j
        }),
{
    let once = with_user(v, telegram_id, first_name);
    if internal_id(v, telegram_id) is None {
        let n = v.users.len() as int;
        assert forall|i: int, j: int| 0 <= i < j < once.users.len() implies (
        #[trigger] once.users[i]).telegram_id != (#[trigger] once.users[j]).telegram_id by {
            if j == n {
                assert(!user_at(v, telegram_id, i));
            } else {
                assert(v.users[i].telegram_id != v.users[j].telegram_id);
            }
        }
        assert forall|k: int| 0 <= k < once.events.len() implies 1 <= (
        #[trigger] once.events[k]).user_id <= once.users.len() by {
            assert(1 <= v.events[k].user_id <= v.users.len());
        }
        assert(user_at(once, telegram_id, n));
        let c = choose|c: int| user_at(once, telegram_id, c);
        if c < n {
            assert(user_at(v, telegram_id, c));
        }
    }
    assert forall|i: int, j: int|
        user_at(once, telegram_id, i) && user_at(once, telegram_id, j) implies i == j by {
        if i < j {
            assert(once.users[i].telegram_id != once.users[j].telegram_id);
        } else if j < i {
            assert(once.users[j].telegram_id != once.users[i].telegram_id);
        }
    }
}

/// A delivered event is due at no time.
pub proof fn lemma_delivered_never_due(e: EventRow, now: Seq<char>)
    requires
        is_delivered(e),
    ensures
        !is_due(e, now),
{
}

/// Every event that a scan finds is pending and holds the time of the scan.
pub proof fn lemma_due_are_pending(v: StoreView, now: Seq<char>, n: int)
    ensures
        forall|i: int|
            0 <= i < due_upto(v, now, n).len() ==> (#[trigger] due_upto(v, now, n)[i]).event_time
                == now && now != sentinel(),
    decreases n,
{
    if n > 0 {
        lemma_due_are_pending(v, now, n - 1);
        let prev = due_upto(v, now, n - 1);
        assert forall|i: int| 0 <= i < due_upto(v, now, n).len() implies (#[trigger] due_upto(
            v,
            now,
            n,
        )[i]).event_time == now && now != sentinel() by {
            if i < prev.len() {
                assert(due_upto(v, now, n)[i] == prev[i]);
            }
        }
    }
}

/// Delivery is final: whatever is done to the store, an event that has been
/// delivered stays delivered.
pub proof fn lemma_delivery_is_final(
    v: StoreView,
    k: int,
    telegram_id: i64,
    username: Option<Seq<char>>,
    user_id: i64,
    text: Seq<char>,
    event_time: Seq<char>,
)
    requires
        0 <= k < v.events.len(),
        is_delivered(v.events[k]),
    ensures
        is_delivered(with_user(v, telegram_id, username).events[k]),
        is_delivered(with_event(v, user_id, text, event_time).events[k]),
        is_delivered(with_delivered(v, telegram_id, event_time).events[k]),
{
}

/// One delivery marks every event of the user at that minute: two events of
/// one user with the same timestamp are delivered together.
pub proof fn lemma_same_minute_delivered_together(
    v: StoreView,
    telegram_id: i64,
    event_time: Seq<char>,
    i: int,
    j: int,
)
    requires
        0 <= i < v.events.len(),
        0 <= j < v.events.len(),
        hit_by(v, v.events[i], telegram_id, event_time),
        hit_by(v, v.events[j], telegram_id, event_time),
    ensures
        is_delivered(with_delivered(v, telegram_id, event_time).events[i]),
        is_delivered(with_delivered(v, telegram_id, event_time).events[j]),
{
}

/// After a delivery to a user for a timestamp, no scan at any time finds an
/// event of that user with that timestamp.
pub proof fn lemma_not_due_after_delivery(
    v: StoreView,
    telegram_id: i64,
    event_time: Seq<char>,
    now: Seq<char>,
    n: int,
)
    requires
        n <= v.events.len(),
    ensures
        forall|i: int|
            0 <= i < due_upto(with_delivered(v, telegram_id, event_time), now, n).len() ==> {
                let d = #[trigger] due_upto(with_delivered(v, telegram_id, event_time), now, n)[i];
                !(d.telegram_id == telegram_id && d.event_time == event_time)
            },
    decreases n,
{
    if n > 0 {
        lemma_not_due_after_delivery(v, telegram_id, event_time, now, n - 1);
        let w = with_delivered(v, telegram_id, event_time);
        let prev = due_upto(w, now, n - 1);
        let all = due_upto(w, now, n);
        assert(w.events[n - 1] == delivered_row(v, v.events[n - 1], telegram_id, event_time));
        assert forall|i: int| 0 <= i < all.len() implies !((#[trigger] all[i]).telegram_id
            == telegram_id && all[i].event_time == event_time) by {
            if i < prev.len() {
                assert(all[i] == prev[i]);
            }
        }
    }
}

/// A store that holds no event of a user lists nothing for that user.
pub proof fn lemma_no_events_no_lines(v: StoreView, telegram_id: i64, n: int)
    requires
        n <= v.events.len(),
        forall|k: int| 0 <= k < v.events.len() ==> owner_of(v, #[trigger] v.events[k]) != telegram_id,
    ensures
        events_upto(v, telegram_id, n).len() == 0,
    decreases n,
{
    if n > 0 {
        lemma_no_events_no_lines(v, telegram_id, n - 1);
    }
}

/// Compares two texts in the order of a dictionary.
fn text_le(a: &str, b: &str) -> (r: bool)
    ensures
        r == lex_le(a@, b@),
{
    let an: usize = a.unicode_len();
    let bn: usize = b.unicode_len();
    let mut i: usize = 0;
    while i < an
        invariant
            an == a@.len(),
            bn == b@.len(),
            i <= an,
            lex_le(a@, b@) == lex_le_from(a@, b@, i as int),
        decreases an - i,
    {
        if i >= bn {
            return false;
        }
        let x: char = a.get_char(i);
        let y: char = b.get_char(i);
        if x != y {
            return x < y;
        }
        i = i + 1;
    }
    true
}

/// Puts an entry into a listing, behind the entries that do not come after it.
fn insert_sorted(out: &mut Vec<UserEvent>, item: UserEvent)
    requires
        ascending(listed(old(out)@)),
    ensures
        ascending(listed(final(out)@)),
        listed(final(out)@).to_multiset() == listed(old(out)@).to_multiset().insert(item@),
{
    let ghost row = item@;
    let n: usize = out.len();
    let mut pos: usize = 0;
    while pos < n && text_le(out[pos].event_time.as_str(), item.event_time.as_str())
        invariant
            n == out.len(),
            pos <= n,
            out@ == old(out)@,
            row == item@,
            pos > 0 ==> lex_le(out@[pos - 1].event_time@, row.event_time),
        decreases n - pos,
    {
        pos = pos + 1;
    }
    proof {
        if pos < n {
            lemma_lex_total(out@[pos as int].event_time@, row.event_time, 0);
        }
        vstd::seq_lib::to_multiset_insert(listed(out@), pos as int, row);
    }
    out.insert(pos, item);
    proof {
        let before = listed(old(out)@);
        let after = listed(out@);
        assert(after =~= before.insert(pos as int, row));
        assert forall|k: int| 0 <= k < after.len() - 1 implies lex_le(
            #[trigger] after[k].event_time,
            after[k + 1].event_time,
        ) by {
            if k + 1 < pos {
                assert(lex_le(before[k].event_time, before[k + 1].event_time));
            } else if k > pos {
                assert(lex_le(before[k - 1].event_time, before[k].event_time));
            }
        }
    }
}

impl View for EventStore {
    type V = StoreView;

    closed spec fn view(&self) -> StoreView {
        StoreView {
            users: self.users@.map_values(|u: User| u@),
            events: self.events@.map_values(|e: StoredEvent| e@),
        }
    }
}

impl EventStore {
    /// The store's invariant.
    pub open spec fn wf(&self) -> bool {
        store_wf(self@)
    }

    /// A store without users and events.
    pub fn new() -> (r: EventStore)
        ensures
            r.wf(),
            r@.users.len() == 0,
            r@.events.len() == 0,
    {
        EventStore { users: Vec::new(), events: Vec::new() }
    }

    /// The number of users.
    pub fn user_count(&self) -> (r: usize)
        ensures
            r == self@.users.len(),
    {
        self.users.len()
    }

    /// The number of events, pending and delivered.
    pub fn event_count(&self) -> (r: usize)
        ensures
            r == self@.events.len(),
    {
        self.events.len()
    }

    /// The internal id of the user with the external id, if there is one.
    pub fn find_user(&self, telegram_id: i64) -> (r: Option<i64>)
        requires
            self.wf(),
        ensures
            r == internal_id(self@, telegram_id),
            r is Some ==> user_known(self@, r->Some_0) && self@.users[r->Some_0
                - 1].telegram_id == telegram_id,
    {
        let n: usize = self.users.len();
        let mut i: usize = 0;
        while i < n
            invariant
                n == self.users.len(),
                i <= n,
                self.wf(),
                forall|k: int| 0 <= k < i ==> !user_at(self@, telegram_id, k),
            decreases n - i,
        {
            if self.users[i].telegram_id == telegram_id {
                proof {
                    assert(user_at(self@, telegram_id, i as int));
                    let c = choose|c: int| user_at(self@, telegram_id, c);
                    assert(c == i) by {
                        if c < i {
                            assert(self@.users[c].telegram_id != self@.users[i as int].telegram_id);
                        } else if c > i {
                            assert(self@.users[i as int].telegram_id != self@.users[c].telegram_id);
                        }
                    }
                }
                return Some(i as i64 + 1);
            }
            i = i + 1;
        }
        None
    }

    /// Gives the internal id of the user with the external id, creating the
    /// user, with the display name, if there is none yet.
    ///
    /// A user that exists is left as it is: the display name is kept from the
    /// first call.
    pub fn ensure_user(&mut self, telegram_id: i64, username: Option<String>) -> (r: Result<
        i64,
        StoreError,
    >)
        requires
            old(self).wf(),
        ensures
            final(self).wf(),
            final(self)@ == with_user(old(self)@, telegram_id, name_view(username)),
            r == ensured_id(old(self)@, telegram_id),
            r is Ok ==> internal_id(final(self)@, telegram_id) == Some(r->Ok_0),
    {
        match self.find_user(telegram_id) {
            Some(id) => Ok(id),
            None => {
                let n: usize = self.users.len();
                if n as u64 >= i64::MAX as u64 {
                    return Err(StoreError::Unavailable);
                }
                self.users.push(User { telegram_id, username });
                proof {
                    let before = old(self)@;
                    let after = self@;
                    assert(after.users =~= before.users.push(
                        UserRow { telegram_id, username: name_view(username) },
                    ));
                    assert(after.events =~= before.events);
                    assert forall|i: int, j: int| 0 <= i < j < after.users.len() implies (
                    #[trigger] after.users[i]).telegram_id != (
                    #[trigger] after.users[j]).telegram_id by {
                        if j == n {
                            assert(!user_at(before, telegram_id, i));
                        } else {
                            assert(before.users[i].telegram_id != before.users[j].telegram_id);
                        }
                    }
                    assert(user_at(after, telegram_id, n as int));
                    let c = choose|c: int| user_at(after, telegram_id, c);
                    if c < n {
                        assert(user_at(before, telegram_id, c));
                    }
                }
                Ok(n as i64 + 1)
            },
        }
    }

    /// Adds a pending event for the user with the internal id.
    ///
    /// Events need not differ: the same text and timestamp may be added twice.
    /// Fails, and changes nothing, exactly when no user has that id.
    pub fn create_event(&mut self, user_id: i64, text: String, event_time: String) -> (r: Result<
        (),
        StoreError,
    >)
        requires
            old(self).wf(),
        ensures
            final(self).wf(),
            final(self)@ == with_event(old(self)@, user_id, text@, event_time@),
            r is Ok == user_known(old(self)@, user_id),
            r is Err ==> r->Err_0 == StoreError::UnknownUser,
    {
        if user_id < 1 || user_id as u64 > self.users.len() as u64 {
            return Err(StoreError::UnknownUser);
        }
        self.events.push(StoredEvent { user_id, text, event_time });
        proof {
            let before = old(self)@;
            let after = self@;
            assert(after.users =~= before.users);
            assert(after.events =~= before.events.push(
                EventRow { user_id, text: text@, event_time: event_time@ },
            ));
        }
        Ok(())
    }
    /// The external id of the user that the event at place `k` belongs to.
    fn owner_at(&self, k: usize) -> (r: i64)
        requires
            self.wf(),
            k < self@.events.len(),
        ensures
            r == owner_of(self@, self@.events[k as int]),
    {
        let user_id: i64 = self.events[k].user_id;
        assert(self@.events[k as int] == self.events@[k as int]@);
        assert(1 <= self@.events[k as int].user_id <= self@.users.len());
        assert(self@.users.len() == self.users@.len());
        let n: usize = self.users.len();
        assert(0 <= user_id - 1 < n);
        let place: usize = (user_id - 1) as usize;
        assert(self@.users[place as int] == self.users@[place as int]@);
        self.users[place].telegram_id
    }

    /// Lists the events of the user with the external id, ascending by the
    /// timestamp as text.
    ///
    /// The listing holds each event of the user once, delivered ones too, and
    /// nothing else; a user that the store does not know has no events.
    pub fn list_events(&self, telegram_id: i64) -> (r: Vec<UserEvent>)
        requires
            self.wf(),
        ensures
            ascending(listed(r@)),
            listed(r@).to_multiset() == events_of(self@, telegram_id).to_multiset(),
            r@.len() == events_of(self@, telegram_id).len(),
    {
        let mut out: Vec<UserEvent> = Vec::new();
        let n: usize = self.events.len();
        let mut k: usize = 0;
        assert(listed(out@) =~= events_upto(self@, telegram_id, 0));
        while k < n
            invariant
                n == self.events.len(),
                k <= n,
                self.wf(),
                ascending(listed(out@)),
                listed(out@).to_multiset() == events_upto(
                    self@,
                    telegram_id,
                    k as int,
                ).to_multiset(),
            decreases n - k,
        {
            if self.owner_at(k) == telegram_id {
                let item = UserEvent {
                    text: self.events[k].text.clone(),
                    event_time: self.events[k].event_time.clone(),
                };
                proof {
                    vstd::seq_lib::to_multiset_build(
                        events_upto(self@, telegram_id, k as int),
                        item@,
                    );
                }
                insert_sorted(&mut out, item);
            }
            k = k + 1;
        }
        proof {
            vstd::seq_lib::to_multiset_len(listed(out@));
            vstd::seq_lib::to_multiset_len(events_of(self@, telegram_id));
        }
        out
    }

    /// Finds the events that are due at `now`: the pending events whose
    /// timestamp is `now`, character for character, in the order of their
    /// creation, each with its user's external id.
    pub fn find_due(&self, now: &str) -> (r: Vec<NotificationEvent>)
        requires
            self.wf(),
        ensures
            notices(r@) == due_events(self@, now@),
    {
        proof {
            reveal_strlit("done");
        }
        let wanted = now.to_owned();
        let done = "done".to_owned();
        assert(done@ =~= sentinel());
        let mut out: Vec<NotificationEvent> = Vec::new();
        let n: usize = self.events.len();
        let mut k: usize = 0;
        assert(notices(out@) =~= due_upto(self@, now@, 0));
        while k < n
            invariant
                n == self.events.len(),
                k <= n,
                self.wf(),
                wanted@ == now@,
                done@ == sentinel(),
                notices(out@) == due_upto(self@, now@, k as int),
            decreases n - k,
        {
            if self.events[k].event_time == wanted && !(self.events[k].event_time == done) {
                let item = NotificationEvent {
                    telegram_id: self.owner_at(k),
                    text: self.events[k].text.clone(),
                    event_time: self.events[k].event_time.clone(),
                };
                let ghost before = notices(out@);
                out.push(item);
                assert(notices(out@) =~= before.push(item@));
            }
            k = k + 1;
        }
        out
    }

    /// Marks as delivered every event of the user with the external id that
    /// holds the timestamp. There may be none; that is no failure.
    pub fn mark_delivered(&mut self, telegram_id: i64, event_time: &str)
        requires
            old(self).wf(),
        ensures
            final(self).wf(),
            final(self)@ == with_delivered(old(self)@, telegram_id, event_time@),
    {
        let ghost before = self@;
        let wanted = event_time.to_owned();
        let n: usize = self.events.len();
        let mut k: usize = 0;
        while k < n
            invariant
                n == self.events.len(),
                n == before.events.len(),
                k <= n,
                wanted@ == event_time@,
                before == old(self)@,
                store_wf(before),
                self.wf(),
                self@.users == before.users,
                forall|j: int|
                    0 <= j < k ==> (#[trigger] self@.events[j]) == delivered_row(
                        before,
                        before.events[j],
                        telegram_id,
                        event_time@,
                    ),
                forall|j: int| k <= j < n ==> (#[trigger] self@.events[j]) == before.events[j],
            decreases n - k,
        {
            let ghost prior = self@;
            let owner: i64 = self.owner_at(k);
            if owner == telegram_id && self.events[k].event_time == wanted {
                let replaced = StoredEvent {
                    user_id: self.events[k].user_id,
                    text: self.events[k].text.clone(),
                    event_time: "done".to_owned(),
                };
                proof {
                    reveal_strlit("done");
                }
                assert(replaced.event_time@ =~= sentinel());
                self.events.set(k, replaced);
                assert(self@.users =~= prior.users);
                assert(self@.events =~= prior.events.update(k as int, replaced@));
            }
            k = k + 1;
        }
        assert(self@.events =~= with_delivered(before, telegram_id, event_time@).events);
    }
}

} // verus!
