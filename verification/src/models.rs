//! Book club records and the rules on them: who may edit a book or a
//! meeting, how the next meeting is planned, and how updates apply.

use vstd::prelude::*;

verus! {

/// Microseconds in thirty days, the gap between a meeting and the next.
pub const THIRTY_DAYS_MICROS: i64 = 2_592_000_000_000i64;

/// The latest instant a date can hold, in microseconds since the Unix epoch:
/// the end of year 262142.
pub const MAX_TIMESTAMP_MICROS: i64 = 8_210_266_876_799_999_999i64;

/// An instant with the UTC offset it is shown in.
#[derive(Clone, Copy)]
pub struct Timestamp {
    pub utc_micros: i64,
    pub offset_seconds: i32,
}

/// A member of the club.
pub struct User {
    pub id: i32,
    pub name: String,
    pub email: String,
    pub is_superuser: bool,
}

impl Clone for User {
    fn clone(&self) -> (r: User)
        ensures
            r == *self,
    {
        User {
            id: self.id,
            name: self.name.clone(),
            email: self.email.clone(),
            is_superuser: self.is_superuser,
        }
    }
}

/// A book picked for a meeting.
pub struct Book {
    pub id: i32,
    pub title: String,
    pub author: String,
    pub circuit_title: String,
    pub user_id: i32,
    pub calibre_link: String,
    pub isbn10: String,
    pub isbn13: String,
}

impl Clone for Book {
    fn clone(&self) -> (r: Book)
        ensures
            r == *self,
    {
        Book {
            id: self.id,
            title: self.title.clone(),
            author: self.author.clone(),
            circuit_title: self.circuit_title.clone(),
            user_id: self.user_id,
            calibre_link: self.calibre_link.clone(),
            isbn10: self.isbn10.clone(),
            isbn13: self.isbn13.clone(),
        }
    }
}

/// A book not yet stored.
pub struct NewBook {
    pub title: String,
    pub author: String,
    pub circuit_title: String,
    pub user_id: i32,
    pub calibre_link: String,
    pub isbn10: String,
    pub isbn13: String,
}

/// A meeting of the club, with the order of hosts for the following ones.
pub struct Meeting {
    pub id: i32,
    pub book_id: i32,
    pub date: Timestamp,
    pub location: String,
    pub next_meeting_id: Option<i32>,
    pub next_meeting_order: Vec<i32>,
}

/// Two meetings with the same fields and the same host order.
pub open spec fn same_meeting(a: Meeting, b: Meeting) -> bool {
    &&& a.id == b.id
    &&& a.book_id == b.book_id
    &&& a.date == b.date
    &&& a.location == b.location
    &&& a.next_meeting_id == b.next_meeting_id
    &&& a.next_meeting_order@ == b.next_meeting_order@
}

impl Clone for Meeting {
    fn clone(&self) -> (r: Meeting)
        ensures
            same_meeting(r, *self),
    {
        let order = self.next_meeting_order.clone();
        assert(order@ =~= self.next_meeting_order@);
        Meeting {
            id: self.id,
            book_id: self.book_id,
            date: self.date,
            location: self.location.clone(),
            next_meeting_id: self.next_meeting_id,
            next_meeting_order: order,
        }
    }
}

/// A meeting not yet stored.
pub struct NewMeeting {
    pub book_id: i32,
    pub date: Timestamp,
    pub location: String,
    pub next_meeting_id: Option<i32>,
    pub next_meeting_order: Vec<i32>,
}

/// New title and author of a book.
pub struct BookUpdateParams {
    pub title: String,
    pub author: String,
}

/// New place, date and host order of a meeting.
pub struct MeetingUpdateParams {
    pub location: String,
    pub date: Timestamp,
    pub order: Vec<i32>,
}

/// The members in host order for the next meetings, and the others.
pub struct NextMeetingTemplate {
    pub order: Vec<User>,
    /// Users who are not in `order`.
    pub bench: Vec<User>,
}

/// What the next meeting is planned from: the host who picks its book, the
/// circuit of that book, and the host order after this meeting.
pub struct NextMeetingPlan {
    pub host_user_id: i32,
    pub circuit_title: String,
    pub order: Vec<i32>,
}

/// What the system clock reads, as a distance from the Unix epoch.
enum ClockReading {
    AfterEpoch { micros: u128 },
    BeforeEpoch { micros: u128 },
}

/// Calls `std::time::SystemTime::now` and gives its distance from the Unix
/// epoch in microseconds, on whichever side of the epoch the clock reads.
/// The clock is read; nothing is claimed of the value.
#[verifier::external_body]
fn read_clock() -> ClockReading {
    match std::time::SystemTime::now().duration_since(std::time::UNIX_EPOCH) {
        Ok(d) => ClockReading::AfterEpoch { micros: d.as_micros() },
        Err(e) => ClockReading::BeforeEpoch { micros: e.duration().as_micros() },
    }
}

/// The present instant in microseconds since the Unix epoch, negative
/// before it, held at the ends of `i64` beyond them.
pub(crate) fn utc_now_micros() -> i64 {
    match read_clock() {
        ClockReading::AfterEpoch { micros } => {
            if micros <= 9_223_372_036_854_775_807u128 {
                micros as i64
            } else {
                i64::MAX
            }
        },
        ClockReading::BeforeEpoch { micros } => {
            if micros < 9_223_372_036_854_775_808u128 {
                -(micros as i64)
            } else {
                i64::MIN
            }
        },
    }
}

/// A book may be edited by a superuser, or by its owner while its meeting is
/// still ahead of `now`.
pub open spec fn book_editable(book: Book, user: User, meeting: Meeting, now: i64) -> bool {
    user.is_superuser || (book.user_id == user.id && meeting.date.utc_micros > now)
}

/// A meeting may be edited while no next meeting is set, by the owner of its
/// book, while it is still ahead of `now`.
pub open spec fn meeting_editable(meeting: Meeting, user: User, book: Book, now: i64) -> bool {
    meeting.next_meeting_id is None && book.user_id == user.id && meeting.date.utc_micros > now
}

/// The ids of a sequence of users.
pub open spec fn user_ids(users: Seq<User>) -> Seq<i32> {
    users.map_values(|u: User| u.id)
}

/// `s` with its first element moved to the end.
pub open spec fn rotated_left<T>(s: Seq<T>) -> Seq<T> {
    if s.len() == 0 {
        s
    } else {
        s.skip(1).push(s[0])
    }
}

impl Book {
    /// Whether `user` may edit this book at the instant `now`.
    pub fn is_editable_at(&self, user: &User, meeting: &Meeting, now: i64) -> (r: bool)
        ensures
            r == book_editable(*self, *user, *meeting, now),
    {
        user.is_superuser || (self.user_id == user.id && meeting.date.utc_micros > now)
    }

    /// Whether `user` may edit this book now.
    pub fn is_editable(&self, user: &User, meeting: &Meeting) -> (r: bool)
        ensures
            exists|now: i64| r == book_editable(*self, *user, *meeting, now),
            user.is_superuser ==> r,
            r ==> user.is_superuser || self.user_id == user.id,
    {
        let now = utc_now_micros();
        self.is_editable_at(user, meeting, now)
    }

    /// The placeholder book a member holds in a circuit until they pick one.
    pub fn placeholder(circuit_title: String, user_id: i32) -> (b: NewBook)
        ensures
            b.title@ == "TBD"@,
            b.author@ == "TBD"@,
            b.circuit_title == circuit_title,
            b.user_id == user_id,
            b.calibre_link@ == Seq::<char>::empty(),
            b.isbn10@ == "TBD"@,
            b.isbn13@ == "TBD"@,
    {
        NewBook {
            title: String::from_str("TBD"),
            author: String::from_str("TBD"),
            circuit_title,
            user_id,
            calibre_link: String::new(),
            isbn10: String::from_str("TBD"),
            isbn13: String::from_str("TBD"),
        }
    }

    /// Sets the title and author; the rest of the book stays.
    pub fn update_from_params(&mut self, params: BookUpdateParams)
        ensures
            final(self).title == params.title,
            final(self).author == params.author,
            final(self).id == old(self).id,
            final(self).circuit_title == old(self).circuit_title,
            final(self).user_id == old(self).user_id,
            final(self).calibre_link == old(self).calibre_link,
            final(self).isbn10 == old(self).isbn10,
            final(self).isbn13 == old(self).isbn13,
    {
        self.title = params.title;
        self.author = params.author;
    }
}

impl Meeting {
    /// Whether `user` may edit this meeting at the instant `now`.
    pub fn is_editable_at(&self, user: &User, book: &Book, now: i64) -> (r: bool)
        ensures
            r == meeting_editable(*self, *user, *book, now),
    {
        self.next_meeting_id.is_none() && book.user_id == user.id && self.date.utc_micros > now
    }

    /// Whether the next meeting has *not* been set, the book belongs to the
    /// user, and the meeting is in the future.
    pub fn is_editable(&self, user: &User, book: &Book) -> (r: bool)
        ensures
            exists|now: i64| r == meeting_editable(*self, *user, *book, now),
            r ==> self.next_meeting_id is None && book.user_id == user.id,
    {
        let now = utc_now_micros();
        self.is_editable_at(user, book, now)
    }

    /// Sets the place, the date and the host order; the rest stays.
    pub fn update_from_params(&mut self, params: MeetingUpdateParams)
        ensures
            final(self).location == params.location,
            final(self).date == params.date,
            final(self).next_meeting_order == params.order,
            final(self).id == old(self).id,
            final(self).book_id == old(self).book_id,
            final(self).next_meeting_id == old(self).next_meeting_id,
    {
        self.location = params.location;
        self.date = params.date;
        self.next_meeting_order = params.order;
    }

    /// Records the meeting that follows this one.
    pub fn set_next_meeting_id(&mut self, next_meeting_id: i32)
        ensures
            final(self).next_meeting_id == Some(next_meeting_id),
            final(self).id == old(self).id,
            final(self).book_id == old(self).book_id,
            final(self).date == old(self).date,
            final(self).location == old(self).location,
            final(self).next_meeting_order == old(self).next_meeting_order,
    {
        self.next_meeting_id = Some(next_meeting_id);
    }
}

/// The first user in `users` with id `id`.
pub open spec fn user_with_id(users: Seq<User>, id: i32) -> Option<User>
    decreases users.len(),
{
    if users.len() == 0 {
        None
    } else if users[0].id == id {
        Some(users[0])
    } else {
        user_with_id(users.drop_first(), id)
    }
}

/// The users of `users` whose ids are not in `ids`, in their order.
pub open spec fn users_not_in(users: Seq<User>, ids: Seq<i32>) -> Seq<User>
    decreases users.len(),
{
    if users.len() == 0 {
        Seq::empty()
    } else {
        let rest = users_not_in(users.drop_last(), ids);
        if ids.contains(users.last().id) {
            rest
        } else {
            rest.push(users.last())
        }
    }
}

/// Every id in `ids` belongs to some user in `users`.
pub open spec fn all_ids_known(users: Seq<User>, ids: Seq<i32>) -> bool {
    forall|i: int| 0 <= i < ids.len() ==> (#[trigger] user_with_id(users, ids[i])) is Some
}

/// The first user with id `id`, copied.
pub(crate) fn find_user(users: &Vec<User>, id: i32) -> (r: Option<User>)
    ensures
        r == user_with_id(users@, id),
{
    let mut i: usize = 0;
    assert(users@.skip(0) =~= users@);
    while i < users.len()
        invariant
            i <= users.len(),
            user_with_id(users@.skip(i as int), id) == user_with_id(users@, id),
        decreases users.len() - i,
    {
        proof {
            assert(users@.skip(i as int)[0] == users@[i as int]);
            assert(users@.skip(i as int).drop_first() =~= users@.skip(i + 1));
        }
        if users[i].id == id {
            return Some(users[i].clone());
        }
        i += 1;
    }
    proof {
        assert(users@.skip(i as int).len() == 0);
    }
    None
}

/// Whether `id` is in `ids`.
fn contains_id(ids: &Vec<i32>, id: i32) -> (r: bool)
    ensures
        r == ids@.contains(id),
{
    let mut i: usize = 0;
    while i < ids.len()
        invariant
            i <= ids.len(),
            forall|j: int| 0 <= j < i ==> ids@[j] != id,
        decreases ids.len() - i,
    {
        if ids[i] == id {
            assert(ids@[i as int] == id);
            return true;
        }
        i += 1;
    }
    false
}

impl NextMeetingTemplate {
    /// The template of a meeting whose host order is `order`, given all
    /// members: the members in that order, and the members left out of it.
    /// `None` when an id in the order belongs to no member.
    pub fn from_users(order: &Vec<i32>, users: &Vec<User>) -> (r: Option<NextMeetingTemplate>)
        ensures
            r is Some <==> all_ids_known(users@, order@),
            r matches Some(t) ==> {
                &&& t.order@.len() == order@.len()
                &&& forall|i: int|
                    0 <= i < order@.len() ==> Some(#[trigger] t.order@[i]) == user_with_id(users@, order@[i])
                &&& t.bench@ == users_not_in(users@, order@)
            },
    {
        let mut in_order: Vec<User> = Vec::new();
        let mut i: usize = 0;
        while i < order.len()
            invariant
                i <= order.len(),
                in_order@.len() == i,
                forall|j: int| 0 <= j < i ==> Some(#[trigger] in_order@[j]) == user_with_id(users@, order@[j]),
            decreases order.len() - i,
        {
            match find_user(users, order[i]) {
                Some(u) => {
                    in_order.push(u);
                },
                None => {
                    assert(user_with_id(users@, order@[i as int]) is None);
                    return None;
                },
            }
            i += 1;
        }
        let mut bench: Vec<User> = Vec::new();
        let mut k: usize = 0;
        while k < users.len()
            invariant
                k <= users.len(),
                bench@ == users_not_in(users@.take(k as int), order@),
            decreases users.len() - k,
        {
            proof {
                assert(users@.take(k + 1).drop_last() =~= users@.take(k as int));
                assert(users@.take(k + 1).last() == users@[k as int]);
            }
            if !contains_id(order, users[k].id) {
                bench.push(users[k].clone());
            }
            k += 1;
        }
        proof {
            assert(users@.take(k as int) =~= users@);
            assert forall|j: int| 0 <= j < order@.len() implies (#[trigger] user_with_id(users@, order@[j])) is Some by {
                assert(Some(in_order@[j]) == user_with_id(users@, order@[j]));
            }
        }
        Some(NextMeetingTemplate { order: in_order, bench })
    }
}

impl Meeting {
    /// The next meeting template of this meeting, given all members: its
    /// host order resolved to members, and the members left out of it.
    /// Every id in the order must belong to a member; `from_users` tells.
    pub fn get_next_meeting_template(&self, users: &Vec<User>) -> (t: NextMeetingTemplate)
        requires
            all_ids_known(users@, self.next_meeting_order@),
        ensures
            t.order@.len() == self.next_meeting_order@.len(),
            forall|i: int|
                0 <= i < t.order@.len() ==> Some(#[trigger] t.order@[i]) == user_with_id(
                    users@,
                    self.next_meeting_order@[i],
                ),
            t.bench@ == users_not_in(users@, self.next_meeting_order@),
    {
        match NextMeetingTemplate::from_users(&self.next_meeting_order, users) {
            Some(t) => t,
            None => {
                assert(false);
                NextMeetingTemplate { order: Vec::new(), bench: Vec::new() }
            },
        }
    }

    /// The plan for the meeting after this one: the host order moves on by
    /// one, and the new first member hosts, picking from the circuit of
    /// `book`.
    pub fn plan_next(&self, book: &Book, template: &NextMeetingTemplate) -> (plan: NextMeetingPlan)
        requires
            template.order@.len() > 0,
        ensures
            plan.order@ == rotated_left(user_ids(template.order@)),
            plan.host_user_id == plan.order@[0],
            plan.circuit_title == book.circuit_title,
    {
        let ghost ids = user_ids(template.order@);
        let n = template.order.len();
        let mut order: Vec<i32> = Vec::new();
        let mut i: usize = 1;
        while i < n
            invariant
                1 <= i <= n,
                n == template.order@.len(),
                ids == user_ids(template.order@),
                order@ == ids.subrange(1, i as int),
            decreases n - i,
        {
            order.push(template.order[i].id);
            proof {
                assert(order@ =~= ids.subrange(1, i + 1));
            }
            i += 1;
        }
        order.push(template.order[0].id);
        proof {
            assert(order@ =~= ids.skip(1).push(ids[0]));
        }
        let host_user_id = order[0];
        NextMeetingPlan { host_user_id, circuit_title: book.circuit_title.clone(), order }
    }

    /// The meeting after this one: thirty days later, at a place to be
    /// decided, for the placeholder book of the next host.
    pub fn next_meeting(&self, plan: NextMeetingPlan, placeholder_book_id: i32) -> (m: NewMeeting)
        requires
            self.date.utc_micros + THIRTY_DAYS_MICROS <= MAX_TIMESTAMP_MICROS,
        ensures
            m.book_id == placeholder_book_id,
            m.date.utc_micros == self.date.utc_micros + THIRTY_DAYS_MICROS,
            m.date.offset_seconds == self.date.offset_seconds,
            m.location@ == "TBD"@,
            m.next_meeting_id is None,
            m.next_meeting_order == plan.order,
    {
        NewMeeting {
            book_id: placeholder_book_id,
            date: Timestamp {
                utc_micros: self.date.utc_micros + THIRTY_DAYS_MICROS,
                offset_seconds: self.date.offset_seconds,
            },
            location: String::from_str("TBD"),
            next_meeting_id: None,
            next_meeting_order: plan.order,
        }
    }
}

/// The host order after `k` meetings: rotated left `k` times.
pub open spec fn rotated_times<T>(s: Seq<T>, k: nat) -> Seq<T>
    decreases k,
{
    if k == 0 {
        s
    } else {
        rotated_left(rotated_times(s, (k - 1) as nat))
    }
}

/// Whoever may edit a meeting may also edit its book.
pub proof fn law_meeting_editor_may_edit_book(meeting: Meeting, user: User, book: Book, now: i64)
    ensures
        meeting_editable(meeting, user, book, now) ==> book_editable(book, user, meeting, now),
{
}

/// A meeting whose successor is set, or which is not ahead of `now`, is
/// closed to every member; a superuser may edit any book.
pub proof fn law_closed_meetings(meeting: Meeting, user: User, book: Book, now: i64)
    ensures
        meeting.next_meeting_id is Some ==> !meeting_editable(meeting, user, book, now),
        meeting.date.utc_micros <= now ==> !meeting_editable(meeting, user, book, now),
        meeting.date.utc_micros <= now && !user.is_superuser ==> !book_editable(book, user, meeting, now),
        user.is_superuser ==> book_editable(book, user, meeting, now),
{
}

/// The host order turns like a wheel: after `k` meetings the member at
/// position `i` is the one that was at `(i + k) % n`; so each member hosts
/// once in every `n` meetings, and after `n` meetings the order is back.
pub proof fn law_host_order_cycles<T>(s: Seq<T>, k: nat)
    requires
        s.len() > 0,
    ensures
        rotated_times(s, k).len() == s.len(),
        forall|i: int| 0 <= i < s.len() ==> #[trigger] rotated_times(s, k)[i] == s[(i + k) % (s.len() as int)],
        rotated_times(s, s.len()) == s,
{
    lemma_rotated_times_index(s, k);
    lemma_rotated_full_circle(s);
}

/// Rotating a sequence once per element gives it back.
proof fn lemma_rotated_full_circle<T>(s: Seq<T>)
    requires
        s.len() > 0,
    ensures
        rotated_times(s, s.len()) == s,
{
    lemma_rotated_times_index(s, s.len());
    let n = s.len() as int;
    assert forall|i: int| 0 <= i < n implies #[trigger] rotated_times(s, s.len())[i] == s[i] by {
        vstd::arithmetic::div_mod::lemma_mod_add_multiples_vanish(i, n);
        vstd::arithmetic::div_mod::lemma_small_mod(i as nat, n as nat);
        assert(i + n == n + i);
    }
    assert(rotated_times(s, s.len()) =~= s);
}

/// After `k` rotations the element at `i` was at `(i + k) % n`.
proof fn lemma_rotated_times_index<T>(s: Seq<T>, k: nat)
    requires
        s.len() > 0,
    ensures
        rotated_times(s, k).len() == s.len(),
        forall|i: int| 0 <= i < s.len() ==> #[trigger] rotated_times(s, k)[i] == s[(i + k) % (s.len() as int)],
    decreases k,
{
    let n = s.len() as int;
    if k > 0 {
        lemma_rotated_times_index(s, (k - 1) as nat);
        let r = rotated_times(s, (k - 1) as nat);
        assert forall|i: int| 0 <= i < n implies #[trigger] rotated_times(s, k)[i] == s[(i + k) % n] by {
            if i < n - 1 {
                assert(rotated_times(s, k)[i] == r[i + 1]);
                assert(i + 1 + (k - 1) == i + k);
            } else {
                assert(rotated_times(s, k)[i] == r[0]);
                vstd::arithmetic::div_mod::lemma_mod_add_multiples_vanish(k - 1, n);
                assert(n + (k - 1) == i + k);
            }
        }
    } else {
        assert forall|i: int| 0 <= i < n implies #[trigger] rotated_times(s, k)[i] == s[(i + k) % n] by {
            vstd::arithmetic::div_mod::lemma_small_mod(i as nat, n as nat);
        }
    }
}

/// The bench holds exactly the members whose ids are not in the host order,
/// in their order among all members.
pub proof fn law_bench_complements_order(users: Seq<User>, ids: Seq<i32>)
    ensures
        forall|j: int|
            0 <= j < users_not_in(users, ids).len() ==> !ids.contains(
                (#[trigger] users_not_in(users, ids)[j]).id,
            ) && users.contains(users_not_in(users, ids)[j]),
        forall|j: int|
            0 <= j < users.len() && !ids.contains((#[trigger] users[j]).id) ==> users_not_in(
                users,
                ids,
            ).contains(users[j]),
        users_not_in(users, ids).len() <= users.len(),
    decreases users.len(),
{
    if users.len() > 0 {
        let prev = users.drop_last();
        law_bench_complements_order(prev, ids);
        let rest = users_not_in(prev, ids);
        let b = users_not_in(users, ids);
        assert forall|j: int| 0 <= j < b.len() implies !ids.contains((#[trigger] b[j]).id) && users.contains(b[j]) by {
            if j < rest.len() {
                assert(b[j] == rest[j]);
                let k = choose|k: int| 0 <= k < prev.len() && prev[k] == rest[j];
                assert(users[k] == prev[k]);
            } else {
                assert(users[users.len() - 1] == users.last());
            }
        }
        assert forall|j: int| 0 <= j < users.len() && !ids.contains((#[trigger] users[j]).id) implies b.contains(users[j]) by {
            if j < prev.len() {
                assert(prev[j] == users[j]);
                let k = choose|k: int| 0 <= k < rest.len() && rest[k] == prev[j];
                assert(b[k] == rest[k]);
            } else {
                assert(b[b.len() - 1] == users.last());
            }
        }
    }
}

} // verus!
