use bookclub::controllers::{
    check_meeting_editable, check_meeting_editable_at, redirect, update_book, update_book_at, BookFormParams, EditError,
};
use bookclub::models::{
    Book, BookUpdateParams, Meeting, MeetingUpdateParams, NextMeetingPlan, NextMeetingTemplate, Timestamp, User,
    MAX_TIMESTAMP_MICROS, THIRTY_DAYS_MICROS,
};

fn user(id: i32, name: &str, superuser: bool) -> User {
    User { id, name: name.into(), email: format!("{name}@example.org"), is_superuser: superuser }
}

fn book(id: i32, owner: i32) -> Book {
    Book {
        id,
        title: "Piranesi".into(),
        author: "Susanna Clarke".into(),
        circuit_title: "Fiction".into(),
        user_id: owner,
        calibre_link: "".into(),
        isbn10: "1635575632".into(),
        isbn13: "9781635575637".into(),
    }
}

fn meeting(id: i32, micros: i64, next: Option<i32>) -> Meeting {
    Meeting {
        id,
        book_id: 1,
        date: Timestamp { utc_micros: micros, offset_seconds: 3600 },
        location: "Library".into(),
        next_meeting_id: next,
        next_meeting_order: vec![1, 2, 3],
    }
}

const NOW: i64 = 1_700_000_000_000_000;
const FAR_FUTURE: i64 = 4_000_000_000_000_000;

#[test]
fn book_editing_rules() {
    let b = book(1, 7);
    let owner = user(7, "ann", false);
    let other = user(8, "bob", false);
    let admin = user(9, "root", true);
    let ahead = meeting(1, NOW + 1, None);
    let past = meeting(1, NOW, None);
    assert!(b.is_editable_at(&owner, &ahead, NOW));
    assert!(!b.is_editable_at(&owner, &past, NOW));
    assert!(!b.is_editable_at(&other, &ahead, NOW));
    assert!(b.is_editable_at(&admin, &past, NOW));
    // Against the clock.
    assert!(b.is_editable(&owner, &meeting(1, FAR_FUTURE, None)));
    assert!(!b.is_editable(&owner, &meeting(1, 0, None)));
    assert!(b.is_editable(&admin, &meeting(1, 0, None)));
}

#[test]
fn meeting_editing_rules() {
    let b = book(1, 7);
    let owner = user(7, "ann", false);
    let admin = user(9, "root", true);
    assert!(meeting(1, NOW + 1, None).is_editable_at(&owner, &b, NOW));
    assert!(!meeting(1, NOW + 1, Some(2)).is_editable_at(&owner, &b, NOW));
    assert!(!meeting(1, NOW, None).is_editable_at(&owner, &b, NOW));
    assert!(!meeting(1, NOW + 1, None).is_editable_at(&admin, &b, NOW));
    assert!(meeting(1, FAR_FUTURE, None).is_editable(&owner, &b));
    assert!(!meeting(1, 0, None).is_editable(&owner, &b));
}

#[test]
fn meeting_editor_may_edit_book() {
    let b = book(1, 7);
    let owner = user(7, "ann", false);
    let m = meeting(1, NOW + 5, None);
    assert!(m.is_editable_at(&owner, &b, NOW));
    assert!(b.is_editable_at(&owner, &m, NOW));
}

#[test]
fn placeholder_book() {
    let p = Book::placeholder("Fiction".into(), 4);
    assert_eq!(p.title, "TBD");
    assert_eq!(p.author, "TBD");
    assert_eq!(p.circuit_title, "Fiction");
    assert_eq!(p.user_id, 4);
    assert_eq!(p.calibre_link, "");
    assert_eq!(p.isbn10, "TBD");
    assert_eq!(p.isbn13, "TBD");
}

#[test]
fn updates_apply() {
    let mut b = book(3, 7);
    b.update_from_params(BookUpdateParams { title: "Jonathan Strange".into(), author: "S. Clarke".into() });
    assert_eq!(b.title, "Jonathan Strange");
    assert_eq!(b.author, "S. Clarke");
    assert_eq!(b.isbn10, "1635575632");
    assert_eq!(b.id, 3);

    let mut m = meeting(5, NOW, None);
    m.update_from_params(MeetingUpdateParams {
        location: "Cafe".into(),
        date: Timestamp { utc_micros: NOW + 10, offset_seconds: 0 },
        order: vec![3, 1],
    });
    assert_eq!(m.location, "Cafe");
    assert_eq!(m.date.utc_micros, NOW + 10);
    assert_eq!(m.date.offset_seconds, 0);
    assert_eq!(m.next_meeting_order, vec![3, 1]);
    assert_eq!(m.id, 5);
    m.set_next_meeting_id(6);
    assert_eq!(m.next_meeting_id, Some(6));
}

#[test]
fn template_from_users() {
    let users = vec![user(1, "ann", false), user(2, "bob", false), user(3, "cid", false), user(4, "dee", false)];
    let t = NextMeetingTemplate::from_users(&vec![3, 1], &users).unwrap();
    let order: Vec<i32> = t.order.iter().map(|u| u.id).collect();
    let bench: Vec<i32> = t.bench.iter().map(|u| u.id).collect();
    assert_eq!(order, vec![3, 1]);
    assert_eq!(bench, vec![2, 4]);
    assert_eq!(t.order[0].name, "cid");
    assert!(NextMeetingTemplate::from_users(&vec![3, 9], &users).is_none());
    let m = Meeting { next_meeting_order: vec![2, 4], ..meeting(1, NOW, None) };
    let t2 = m.get_next_meeting_template(&users);
    assert_eq!(t2.order.iter().map(|u| u.id).collect::<Vec<_>>(), vec![2, 4]);
    assert_eq!(t2.bench.iter().map(|u| u.id).collect::<Vec<_>>(), vec![1, 3]);
    let empty = NextMeetingTemplate::from_users(&vec![], &users).unwrap();
    assert!(empty.order.is_empty());
    assert_eq!(empty.bench.len(), 4);
}

#[test]
fn next_meeting_rotates_hosts() {
    let users = vec![user(1, "ann", false), user(2, "bob", false), user(3, "cid", false)];
    let template = NextMeetingTemplate::from_users(&vec![1, 2, 3], &users).unwrap();
    let current = meeting(10, NOW, Some(11));
    let plan = current.plan_next(&book(1, 1), &template);
    assert_eq!(plan.order, vec![2, 3, 1]);
    assert_eq!(plan.host_user_id, 2);
    assert_eq!(plan.circuit_title, "Fiction");
    let next = current.next_meeting(plan, 42);
    assert_eq!(next.book_id, 42);
    assert_eq!(next.date.utc_micros, NOW + THIRTY_DAYS_MICROS);
    assert_eq!(next.date.utc_micros - NOW, 30 * 24 * 3600 * 1_000_000);
    assert_eq!(next.date.offset_seconds, 3600);
    assert_eq!(next.location, "TBD");
    assert_eq!(next.next_meeting_id, None);
    assert_eq!(next.next_meeting_order, vec![2, 3, 1]);
}

#[test]
fn host_order_returns_after_a_full_round() {
    let users = vec![user(1, "ann", false), user(2, "bob", false), user(3, "cid", false)];
    let mut order = vec![1, 2, 3];
    let mut hosts = Vec::new();
    for _ in 0..3 {
        let template = NextMeetingTemplate::from_users(&order, &users).unwrap();
        let plan: NextMeetingPlan = meeting(1, NOW, None).plan_next(&book(1, 1), &template);
        hosts.push(plan.host_user_id);
        order = plan.order;
    }
    assert_eq!(order, vec![1, 2, 3]);
    assert_eq!(hosts, vec![2, 3, 1]);
}

#[test]
fn single_host_hosts_again() {
    let users = vec![user(5, "eve", false)];
    let template = NextMeetingTemplate::from_users(&vec![5], &users).unwrap();
    let plan = meeting(1, NOW, None).plan_next(&book(1, 5), &template);
    assert_eq!(plan.host_user_id, 5);
    assert_eq!(plan.order, vec![5]);
}

#[test]
fn latest_date_bound() {
    assert_eq!(MAX_TIMESTAMP_MICROS, 8_210_266_876_799_999_999);
    let m = meeting(1, MAX_TIMESTAMP_MICROS - THIRTY_DAYS_MICROS, None);
    let users = vec![user(1, "ann", false)];
    let template = NextMeetingTemplate::from_users(&vec![1], &users).unwrap();
    let next = m.next_meeting(m.plan_next(&book(1, 1), &template), 1);
    assert_eq!(next.date.utc_micros, MAX_TIMESTAMP_MICROS);
}

#[test]
fn controller_decisions() {
    let r = redirect();
    assert_eq!(r.status, 302);
    assert_eq!(r.location, "/meetings");

    let owner = user(7, "ann", false);
    let admin = user(9, "root", true);
    let params = || BookFormParams {
        title: "New".into(),
        author: "Writer".into(),
        isbn10: "x".into(),
        isbn13: "y".into(),
    };
    let updated = match update_book(book(1, 7), &meeting(1, FAR_FUTURE, None), &owner, params()) {
        Ok(b) => b,
        Err(_) => panic!("owner may edit an upcoming book"),
    };
    assert_eq!(updated.title, "New");
    assert_eq!(updated.author, "Writer");
    assert_eq!(updated.isbn10, "1635575632");
    match update_book(book(1, 7), &meeting(1, 0, None), &owner, params()) {
        Err(EditError::Unauthorized { message }) => assert_eq!(message, "You cannot edit this book"),
        Ok(_) => panic!("past meeting"),
    }
    assert!(update_book(book(1, 7), &meeting(1, 0, None), &admin, params()).is_ok());

    assert!(check_meeting_editable(&meeting(1, FAR_FUTURE, None), &book(1, 7), &owner).is_ok());
    // At a given instant.
    assert!(update_book_at(book(1, 7), &meeting(1, NOW + 1, None), &owner, params(), NOW).is_ok());
    assert!(update_book_at(book(1, 7), &meeting(1, NOW, None), &owner, params(), NOW).is_err());
    assert!(check_meeting_editable_at(&meeting(1, NOW + 1, None), &book(1, 7), &owner, NOW).is_ok());
    match check_meeting_editable_at(&meeting(1, NOW, None), &book(1, 7), &owner, NOW) {
        Err(EditError::Unauthorized { message }) => assert_eq!(message, "You cannot edit this meeting"),
        Ok(_) => panic!("past meeting"),
    }
    match check_meeting_editable(&meeting(1, FAR_FUTURE, Some(2)), &book(1, 7), &owner) {
        Err(EditError::Unauthorized { message }) => assert_eq!(message, "You cannot edit this meeting"),
        Ok(_) => panic!("next meeting set"),
    }
}
