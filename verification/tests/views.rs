use bookclub::models::{Book, Meeting, NextMeetingTemplate, Timestamp, User};
use bookclub::views::{BookCardTemplate, BookFormTemplate, BookTemplate, BooksTemplate, MeetingTemplate, Pick};

fn user(id: i32, name: &str) -> User {
    User { id, name: name.into(), email: "".into(), is_superuser: false }
}

fn book(id: i32, owner: i32, title: &str) -> Book {
    Book {
        id,
        title: title.into(),
        author: "A".into(),
        circuit_title: "Fiction".into(),
        user_id: owner,
        calibre_link: "".into(),
        isbn10: "1".into(),
        isbn13: "2".into(),
    }
}

fn meeting(micros: i64) -> Meeting {
    Meeting {
        id: 1,
        book_id: 1,
        date: Timestamp { utc_micros: micros, offset_seconds: 0 },
        location: "Here".into(),
        next_meeting_id: None,
        next_meeting_order: vec![1],
    }
}

#[test]
fn pick_display() {
    let p = Pick { id: 1, title: "Middlemarch".into(), author: "George Eliot".into() };
    assert_eq!(p.display(), "Middlemarch by George Eliot");
}

#[test]
fn book_cards() {
    let users = vec![user(1, "ann"), user(2, "bob")];
    let t = BooksTemplate::new(vec![book(10, 2, "X"), book(11, 1, "Y")], &users);
    assert_eq!(t.books.len(), 2);
    assert_eq!(t.books[0].username, "bob");
    assert_eq!(t.books[0].title, "X");
    assert_eq!(t.books[1].username, "ann");
    assert_eq!(t.books[1].circuit, "Fiction");
    assert!(BooksTemplate::try_new(vec![book(10, 3, "Z")], &users).is_none());
    assert_eq!(BooksTemplate::try_new(vec![book(10, 1, "Z")], &users).unwrap().books[0].username, "ann");
    let c = BookCardTemplate::new(book(1, 1, "T"), "ann".into());
    assert_eq!(c.isbn13, "2");
    let c = BookCardTemplate::with_circuit(book(1, 1, "T"), "Classics".into(), "bob".into());
    assert_eq!(c.circuit, "Classics");
    assert_eq!(c.username, "bob");
    assert_eq!(c.title, "T");
}

#[test]
fn book_and_meeting_pages() {
    let owner = user(1, "ann");
    let f = BookFormTemplate::new(book(1, 1, "T"), meeting(4_000_000_000_000_000), user(1, "ann"));
    assert!(f.editable);
    let page = BookTemplate::new(book(1, 1, "T"), meeting(0), owner);
    assert!(!page.form.editable);
    assert_eq!(page.book.title, "T");
    assert_eq!(page.form.book.title, "T");

    let users = vec![user(1, "ann")];
    let template = NextMeetingTemplate::from_users(&vec![1], &users).unwrap();
    let t2 = NextMeetingTemplate::from_users(&vec![1], &users).unwrap();
    let at = MeetingTemplate::new_at(meeting(100), book(1, 1, "T"), user(1, "ann"), t2, 99);
    assert!(at.form.editable);
    let t3 = NextMeetingTemplate::from_users(&vec![1], &users).unwrap();
    let at = MeetingTemplate::new_at(meeting(100), book(1, 1, "T"), user(1, "ann"), t3, 100);
    assert!(!at.form.editable);
    assert!(BookTemplate::new_at(book(1, 1, "T"), meeting(100), user(1, "ann"), 99).form.editable);
    assert!(!BookFormTemplate::new_at(book(1, 1, "T"), meeting(100), user(1, "ann"), 100).editable);
    let mp = MeetingTemplate::new(meeting(4_000_000_000_000_000), book(1, 1, "T"), user(1, "ann"), template);
    assert!(mp.form.editable);
    assert_eq!(mp.form.meeting.location, "Here");
    assert_eq!(mp.form.next_meeting_template.order[0].name, "ann");
}
