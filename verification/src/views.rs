//! What the pages show, assembled from the records.

use vstd::prelude::*;
use vstd::string::StringExecFns;
use crate::models::{
    book_editable, find_user, meeting_editable, same_meeting, utc_now_micros, user_with_id, Book, Meeting, NextMeetingTemplate,
    User,
};

verus! {

/// A circuit: a group of members reading in turn.
pub struct Circuit {
    pub id: i32,
    pub title: String,
}

/// A book someone recommends.
pub struct Pick {
    pub id: i32,
    pub title: String,
    pub author: String,
}

impl Pick {
    /// The pick as shown: `title by author`.
    pub fn display(&self) -> (s: String)
        ensures
            s@ == self.title@ + " by "@ + self.author@,
    {
        let mut s = self.title.clone();
        s.append(" by ");
        s.append(self.author.as_str());
        s
    }
}

/// The navigation over the circuits that have books.
pub struct BooksCircuitNav {
    pub circuits: Vec<String>,
}

/// The navigation over all circuits.
pub struct CircuitsNav {
    pub circuits: Vec<Circuit>,
}

/// One book as a card.
pub struct BookCardTemplate {
    pub title: String,
    pub author: String,
    pub circuit: String,
    pub username: String,
    pub isbn10: String,
    pub isbn13: String,
}

/// The list of books.
pub struct BooksTemplate {
    pub books: Vec<BookCardTemplate>,
}

/// The card of `book`, whose owner is called `username`.
pub open spec fn card_of(book: Book, username: String) -> BookCardTemplate {
    BookCardTemplate {
        title: book.title,
        author: book.author,
        circuit: book.circuit_title,
        username,
        isbn10: book.isbn10,
        isbn13: book.isbn13,
    }
}

impl BookCardTemplate {
    /// The card of `book`, whose owner is called `username`.
    pub fn new(book: Book, username: String) -> (c: BookCardTemplate)
        ensures
            c == card_of(book, username),
            c.title == book.title,
            c.author == book.author,
            c.circuit == book.circuit_title,
            c.username == username,
            c.isbn10 == book.isbn10,
            c.isbn13 == book.isbn13,
    {
        BookCardTemplate {
            title: book.title,
            author: book.author,
            circuit: book.circuit_title,
            username,
            isbn10: book.isbn10,
            isbn13: book.isbn13,
        }
    }
}

impl BookCardTemplate {
    /// The card of `book` filed under the circuit called `circuit_title`,
    /// whose owner is called `username`.
    pub fn with_circuit(book: Book, circuit_title: String, username: String) -> (c: BookCardTemplate)
        ensures
            c.title == book.title,
            c.author == book.author,
            c.circuit == circuit_title,
            c.username == username,
            c.isbn10 == book.isbn10,
            c.isbn13 == book.isbn13,
    {
        BookCardTemplate {
            title: book.title,
            author: book.author,
            circuit: circuit_title,
            username,
            isbn10: book.isbn10,
            isbn13: book.isbn13,
        }
    }
}

/// A card shows its own book: the card of a book carries that book's title,
/// author, circuit and ISBNs, and the owner's name it was given.
pub proof fn law_card_shows_its_book(book: Book, username: String)
    ensures
        card_of(book, username).title == book.title,
        card_of(book, username).author == book.author,
        card_of(book, username).circuit == book.circuit_title,
        card_of(book, username).username == username,
        card_of(book, username).isbn10 == book.isbn10,
        card_of(book, username).isbn13 == book.isbn13,
{
}

/// Every book's owner is among `users`.
pub open spec fn owners_known(books: Seq<Book>, users: Seq<User>) -> bool {
    forall|i: int| 0 <= i < books.len() ==> (#[trigger] user_with_id(users, books[i].user_id)) is Some
}

impl BooksTemplate {
    /// The cards of `books` in their order, each with the name of the first
    /// of `users` that owns it; `None` when a book's owner is not among them,
    /// where `new` may not be called.
    pub fn try_new(books: Vec<Book>, users: &Vec<User>) -> (r: Option<BooksTemplate>)
        ensures
            r is Some <==> owners_known(books@, users@),
            r matches Some(t) ==> {
                &&& t.books@.len() == books@.len()
                &&& forall|i: int|
                    0 <= i < books@.len() ==> #[trigger] t.books@[i] == card_of(
                        books@[i],
                        user_with_id(users@, books@[i].user_id)->0.name,
                    )
            },
    {
        let ghost all = books@;
        let total = books.len();
        let mut cards: Vec<BookCardTemplate> = Vec::new();
        let mut n: usize = 0;
        broadcast use vstd::std_specs::vec::axiom_spec_into_iter;
        for book in iter: books
            invariant
                iter.seq() == all,
                n == iter.index(),
                n <= all.len(),
                all.len() == total,
                cards@.len() == n,
                forall|j: int| 0 <= j < n ==> (#[trigger] user_with_id(users@, all[j].user_id)) is Some,
                forall|j: int|
                    0 <= j < n ==> #[trigger] cards@[j] == card_of(
                        all[j],
                        user_with_id(users@, all[j].user_id)->0.name,
                    ),
        {
            match find_user(users, book.user_id) {
                Some(user) => {
                    cards.push(BookCardTemplate::new(book, user.name));
                },
                None => {
                    return None;
                },
            }
            n += 1;
        }
        Some(BooksTemplate { books: cards })
    }

    /// The cards of `books` in their order, each with the name of the first
    /// of `users` that owns it. Every book's owner must be among `users`.
    pub fn new(books: Vec<Book>, users: &Vec<User>) -> (t: BooksTemplate)
        requires
            owners_known(books@, users@),
        ensures
            t.books@.len() == books@.len(),
            forall|i: int|
                0 <= i < books@.len() ==> #[trigger] t.books@[i] == card_of(
                    books@[i],
                    user_with_id(users@, books@[i].user_id)->0.name,
                ),
            forall|i: int|
                0 <= i < books@.len() ==> {
                    &&& (#[trigger] t.books@[i]).title == books@[i].title
                    &&& t.books@[i].author == books@[i].author
                    &&& t.books@[i].circuit == books@[i].circuit_title
                    &&& t.books@[i].isbn10 == books@[i].isbn10
                    &&& t.books@[i].isbn13 == books@[i].isbn13
                    &&& user_with_id(users@, books@[i].user_id) == Some(
                        User { name: t.books@[i].username, ..user_with_id(users@, books@[i].user_id)->0 },
                    )
                },
    {
        match BooksTemplate::try_new(books, users) {
            Some(t) => t,
            None => {
                assert(false);
                BooksTemplate { books: Vec::new() }
            },
        }
    }
}

/// A book with whether the viewer may edit it.
pub struct BookFormTemplate {
    pub book: Book,
    pub editable: bool,
}

impl BookFormTemplate {
    /// The form of `book` for `user`, editable when the rules allow it at
    /// the instant `now`.
    pub fn new_at(book: Book, meeting: Meeting, user: User, now: i64) -> (f: BookFormTemplate)
        ensures
            f.book == book,
            f.editable == book_editable(book, user, meeting, now),
    {
        let editable = book.is_editable_at(&user, &meeting, now);
        BookFormTemplate { book, editable }
    }

    /// The form of `book` for `user`, editable when the rules allow it at
    /// the present instant, read from the clock once.
    pub fn new(book: Book, meeting: Meeting, user: User) -> (f: BookFormTemplate)
        ensures
            f.book == book,
            exists|now: i64| f.editable == book_editable(book, user, meeting, now),
            user.is_superuser ==> f.editable,
    {
        let now = utc_now_micros();
        BookFormTemplate::new_at(book, meeting, user, now)
    }
}

/// The page of a book.
pub struct BookTemplate {
    pub book: Book,
    pub form: BookFormTemplate,
}

impl BookTemplate {
    /// The page of `book`, read at `meeting`, as `user` sees it at the
    /// instant `now`.
    pub fn new_at(book: Book, meeting: Meeting, user: User, now: i64) -> (t: BookTemplate)
        ensures
            t.book == book,
            t.form.book == book,
            t.form.editable == book_editable(book, user, meeting, now),
    {
        let form = BookFormTemplate::new_at(book.clone(), meeting, user, now);
        BookTemplate { book, form }
    }

    /// The page of `book`, read at `meeting`, as `user` sees it now.
    pub fn new(book: Book, meeting: Meeting, user: User) -> (t: BookTemplate)
        ensures
            t.book == book,
            t.form.book == book,
            exists|now: i64| t.form.editable == book_editable(book, user, meeting, now),
    {
        let now = utc_now_micros();
        BookTemplate::new_at(book, meeting, user, now)
    }
}

/// The list of meetings with their books.
pub struct MeetingsTemplate {
    pub meetings: Vec<(Meeting, Book)>,
}

/// A meeting with whether the viewer may edit it, and the host order.
pub struct MeetingFormTemplate {
    pub meeting: Meeting,
    pub book: Book,
    pub user: User,
    pub editable: bool,
    pub next_meeting_template: NextMeetingTemplate,
}

impl MeetingFormTemplate {
    /// The form of `meeting` for `user`, editable when the rules allow it at
    /// the instant `now`.
    pub fn new_at(
        meeting: Meeting,
        book: Book,
        user: User,
        next_meeting_template: NextMeetingTemplate,
        now: i64,
    ) -> (f: MeetingFormTemplate)
        ensures
            f.meeting == meeting,
            f.book == book,
            f.user == user,
            f.next_meeting_template == next_meeting_template,
            f.editable == meeting_editable(meeting, user, book, now),
    {
        let editable = meeting.is_editable_at(&user, &book, now);
        MeetingFormTemplate { meeting, book, user, editable, next_meeting_template }
    }

    /// The form of `meeting` for `user`, editable when the rules allow it at
    /// the present instant, read from the clock once.
    pub fn new(meeting: Meeting, book: Book, user: User, next_meeting_template: NextMeetingTemplate) -> (f:
        MeetingFormTemplate)
        ensures
            f.meeting == meeting,
            f.book == book,
            f.user == user,
            f.next_meeting_template == next_meeting_template,
            exists|now: i64| f.editable == meeting_editable(meeting, user, book, now),
    {
        let now = utc_now_micros();
        MeetingFormTemplate::new_at(meeting, book, user, next_meeting_template, now)
    }
}

/// The page of a meeting.
pub struct MeetingTemplate {
    pub meeting: Meeting,
    pub book: Book,
    pub user: User,
    pub form: MeetingFormTemplate,
}

impl MeetingTemplate {
    /// The page of `meeting` as `user` sees it at the instant `now`.
    pub fn new_at(
        meeting: Meeting,
        book: Book,
        user: User,
        next_meeting_template: NextMeetingTemplate,
        now: i64,
    ) -> (t: MeetingTemplate)
        ensures
            t.meeting == meeting,
            t.book == book,
            t.user == user,
            same_meeting(t.form.meeting, meeting),
            t.form.book == book,
            t.form.user == user,
            t.form.next_meeting_template == next_meeting_template,
            t.form.editable == meeting_editable(meeting, user, book, now),
    {
        let copy = meeting.clone();
        let form = MeetingFormTemplate::new_at(copy, book.clone(), user.clone(), next_meeting_template, now);
        MeetingTemplate { meeting, book, user, form }
    }

    /// The page of `meeting` as `user` sees it now.
    pub fn new(meeting: Meeting, book: Book, user: User, next_meeting_template: NextMeetingTemplate) -> (t:
        MeetingTemplate)
        ensures
            t.meeting == meeting,
            t.book == book,
            t.user == user,
            same_meeting(t.form.meeting, meeting),
            t.form.book == book,
            t.form.user == user,
            t.form.next_meeting_template == next_meeting_template,
            exists|now: i64| t.form.editable == meeting_editable(meeting, user, book, now),
    {
        let now = utc_now_micros();
        MeetingTemplate::new_at(meeting, book, user, next_meeting_template, now)
    }
}

/// The page of picks.
pub struct PicksTemplate {
    pub title: String,
    pub picks: Vec<Pick>,
}

} // verus!
