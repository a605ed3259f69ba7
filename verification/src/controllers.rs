//! The decisions the request handlers take before touching the store.

use vstd::prelude::*;
use crate::models::{book_editable, meeting_editable, utc_now_micros, Book, BookUpdateParams, Meeting, User};

verus! {

/// An HTTP redirect.
pub struct Redirect {
    pub status: u16,
    pub location: String,
}

/// The answer to `/`: a redirect (302 Found) to the meetings.
pub fn redirect() -> (r: Redirect)
    ensures
        r.status == 302,
        r.location@ == "/meetings"@,
{
    Redirect { status: 302, location: String::from_str("/meetings") }
}

/// The book form as submitted.
pub struct BookFormParams {
    pub title: String,
    pub author: String,
    pub isbn10: String,
    pub isbn13: String,
}

/// Why an edit is refused.
pub enum EditError {
    Unauthorized { message: String },
}

/// The book after the form is applied, or a refusal when `user` may not
/// edit it at the instant `now`. Only the title and the author are taken
/// from the form.
pub fn update_book_at(book: Book, meeting: &Meeting, user: &User, params: BookFormParams, now: i64) -> (r:
    Result<Book, EditError>)
    ensures
        r is Ok <==> book_editable(book, *user, *meeting, now),
        r matches Ok(b) ==> {
            &&& b.title == params.title
            &&& b.author == params.author
            &&& b.id == book.id
            &&& b.circuit_title == book.circuit_title
            &&& b.user_id == book.user_id
            &&& b.calibre_link == book.calibre_link
            &&& b.isbn10 == book.isbn10
            &&& b.isbn13 == book.isbn13
        },
        r matches Err(EditError::Unauthorized { message }) ==> message@ == "You cannot edit this book"@,
{
    if !book.is_editable_at(user, meeting, now) {
        return Err(EditError::Unauthorized { message: String::from_str("You cannot edit this book") });
    }
    let mut book = book;
    book.update_from_params(BookUpdateParams { title: params.title, author: params.author });
    Ok(book)
}

/// `update_book_at` at the present instant, read from the clock once.
pub fn update_book(book: Book, meeting: &Meeting, user: &User, params: BookFormParams) -> (r: Result<
    Book,
    EditError,
>)
    ensures
        exists|now: i64|
            #![trigger book_editable(book, *user, *meeting, now)]
            (book_editable(book, *user, *meeting, now) <==> r is Ok),
        r matches Ok(b) ==> {
            &&& b.title == params.title
            &&& b.author == params.author
            &&& b.id == book.id
            &&& b.circuit_title == book.circuit_title
            &&& b.user_id == book.user_id
            &&& b.calibre_link == book.calibre_link
            &&& b.isbn10 == book.isbn10
            &&& b.isbn13 == book.isbn13
        },
        r matches Err(EditError::Unauthorized { message }) ==> message@ == "You cannot edit this book"@,
        user.is_superuser ==> r is Ok,
{
    let now = utc_now_micros();
    update_book_at(book, meeting, user, params, now)
}

/// Nothing, when `user` may edit `meeting` at the instant `now`; else the
/// refusal.
pub fn check_meeting_editable_at(meeting: &Meeting, book: &Book, user: &User, now: i64) -> (r: Result<(), EditError>)
    ensures
        r is Ok <==> meeting_editable(*meeting, *user, *book, now),
        r matches Err(EditError::Unauthorized { message }) ==> message@ == "You cannot edit this meeting"@,
{
    if !meeting.is_editable_at(user, book, now) {
        return Err(
            EditError::Unauthorized { message: String::from_str("You cannot edit this meeting") },
        );
    }
    Ok(())
}

/// `check_meeting_editable_at` at the present instant, read from the clock
/// once.
pub fn check_meeting_editable(meeting: &Meeting, book: &Book, user: &User) -> (r: Result<(), EditError>)
    ensures
        exists|now: i64|
            #![trigger meeting_editable(*meeting, *user, *book, now)]
            (meeting_editable(*meeting, *user, *book, now) <==> r is Ok),
        r matches Err(EditError::Unauthorized { message }) ==> message@ == "You cannot edit this meeting"@,
        meeting.next_meeting_id is Some ==> r is Err,
        book.user_id != user.id ==> r is Err,
{
    let now = utc_now_micros();
    check_meeting_editable_at(meeting, book, user, now)
}

} // verus!
