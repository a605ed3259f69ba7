use bookclub::book_search::{dedup_by_keys, dedup_results, fetch_limit, search_results, BookSearchResult, OpenLibraryDoc};

fn result(title: &str, author: &str, isbn10: &str, isbn13: &str) -> BookSearchResult {
    BookSearchResult {
        title: title.into(),
        author: author.into(),
        isbn10: isbn10.into(),
        isbn13: isbn13.into(),
    }
}

#[test]
fn dedup_merges_case_insensitive_titles() {
    let results = vec![
        BookSearchResult {
            title: "Rhythm of War".into(),
            author: "Brandon Sanderson".into(),
            isbn10: "".into(),
            isbn13: "9781250757302".into(),
        },
        BookSearchResult {
            title: "Rhythm Of War".into(),
            author: "".into(),
            isbn10: "1250759781".into(),
            isbn13: "".into(),
        },
    ];

    let deduped = dedup_results(results, 10);
    assert_eq!(deduped.len(), 1);
    assert_eq!(deduped[0].title, "Rhythm of War");
    assert_eq!(deduped[0].author, "Brandon Sanderson");
    assert_eq!(deduped[0].isbn10, "1250759781");
    assert_eq!(deduped[0].isbn13, "9781250757302");
}

#[test]
fn dedup_keeps_better_entry_as_base() {
    let results = vec![
        BookSearchResult {
            title: "some book".into(),
            author: "".into(),
            isbn10: "".into(),
            isbn13: "".into(),
        },
        BookSearchResult {
            title: "Some Book".into(),
            author: "Author Name".into(),
            isbn10: "1234567890".into(),
            isbn13: "1234567890123".into(),
        },
    ];

    let deduped = dedup_results(results, 10);
    assert_eq!(deduped.len(), 1);
    // The second entry had higher quality, so its title wins
    assert_eq!(deduped[0].title, "Some Book");
    assert_eq!(deduped[0].author, "Author Name");
}

#[test]
fn dedup_preserves_unique_entries() {
    let results = vec![
        BookSearchResult {
            title: "Book A".into(),
            author: "Author A".into(),
            isbn10: "".into(),
            isbn13: "".into(),
        },
        BookSearchResult {
            title: "Book B".into(),
            author: "Author B".into(),
            isbn10: "".into(),
            isbn13: "".into(),
        },
    ];

    let deduped = dedup_results(results, 10);
    assert_eq!(deduped.len(), 2);
}

#[test]
fn dedup_respects_limit() {
    let results: Vec<BookSearchResult> = (0..20)
        .map(|i| BookSearchResult {
            title: format!("Book {i}"),
            author: "".into(),
            isbn10: "".into(),
            isbn13: "".into(),
        })
        .collect();

    let deduped = dedup_results(results, 5);
    assert_eq!(deduped.len(), 5);
}

#[test]
fn dedup_ignores_surrounding_white_space() {
    let results = vec![
        result("  Dune ", "Frank Herbert", "", ""),
        result("dune", "", "0441013597", ""),
        result("\tDUNE\n", "", "", "9780441013593"),
    ];
    let deduped = dedup_results(results, 10);
    assert_eq!(deduped.len(), 1);
    assert_eq!(deduped[0].title, "  Dune ");
    assert_eq!(deduped[0].author, "Frank Herbert");
    assert_eq!(deduped[0].isbn10, "0441013597");
    assert_eq!(deduped[0].isbn13, "9780441013593");
}

#[test]
fn dedup_keeps_first_seen_order() {
    let results = vec![
        result("B", "x", "", ""),
        result("A", "y", "", ""),
        result("b", "", "1", ""),
        result("C", "z", "", ""),
        result("a", "", "", "2"),
    ];
    let deduped = dedup_results(results, 10);
    let titles: Vec<&str> = deduped.iter().map(|r| r.title.as_str()).collect();
    assert_eq!(titles, vec!["B", "A", "C"]);
    assert_eq!(deduped[0].isbn10, "1");
    assert_eq!(deduped[1].isbn13, "2");
}

#[test]
fn dedup_bases_group_on_its_best_result() {
    let results = vec![
        result("A", "Author", "", ""),
        result("a", "", "1234567890", ""),
        result("a", "", "0987654321", "9780000000001"),
    ];
    let deduped = dedup_results(results, 10);
    assert_eq!(deduped.len(), 1);
    // The third result has the most fields, so it is the base.
    assert_eq!(deduped[0].title, "a");
    assert_eq!(deduped[0].isbn10, "0987654321");
    assert_eq!(deduped[0].isbn13, "9780000000001");
    // Its missing author comes from the first duplicate that has one.
    assert_eq!(deduped[0].author, "Author");
}

#[test]
fn dedup_by_given_keys() {
    let results = vec![
        result("x", "", "", ""),
        result("y", "Writer", "", ""),
        result("z", "", "1", ""),
    ];
    let keys = vec!["k1".to_string(), "k2".to_string(), "k1".to_string()];
    let deduped = dedup_by_keys(results, &keys, 10);
    assert_eq!(deduped.len(), 2);
    assert_eq!(deduped[0].title, "z");
    assert_eq!(deduped[0].isbn10, "1");
    assert_eq!(deduped[1].title, "y");
    assert_eq!(dedup_by_keys(vec![result("x", "", "", "")], &vec!["k".to_string()], 0).len(), 0);
}

#[test]
fn dedup_equal_quality_keeps_existing_base() {
    let results = vec![result("Emma", "Austen", "", ""), result("EMMA", "Jane Austen", "", "")];
    let deduped = dedup_results(results, 10);
    assert_eq!(deduped.len(), 1);
    assert_eq!(deduped[0].title, "Emma");
    assert_eq!(deduped[0].author, "Austen");
}

#[test]
fn dedup_limit_zero_and_empty_input() {
    assert!(dedup_results(vec![result("A", "", "", "")], 0).is_empty());
    assert!(dedup_results(Vec::new(), 3).is_empty());
}

#[test]
fn dedup_twice_is_dedup_once() {
    let results = vec![result("X", "", "1", ""), result("x", "a", "", ""), result("Y", "", "", "")];
    let once = dedup_results(results, 10);
    let again: Vec<BookSearchResult> = once
        .iter()
        .map(|r| result(&r.title, &r.author, &r.isbn10, &r.isbn13))
        .collect();
    let twice = dedup_results(again, 10);
    assert_eq!(twice.len(), once.len());
    for (a, b) in once.iter().zip(twice.iter()) {
        assert_eq!(a.title, b.title);
        assert_eq!(a.author, b.author);
        assert_eq!(a.isbn10, b.isbn10);
        assert_eq!(a.isbn13, b.isbn13);
    }
}

#[test]
fn merge_fills_only_empty_fields() {
    let mut a = result("Title", "", "1234567890", "");
    let b = result("Other", "Someone", "0987654321", "9780000000000");
    a.merge(&b);
    assert_eq!(a.title, "Title");
    assert_eq!(a.author, "Someone");
    assert_eq!(a.isbn10, "1234567890");
    assert_eq!(a.isbn13, "9780000000000");
    let mut empty = result("", "", "", "");
    empty.merge(&result("", "", "", ""));
    assert_eq!(empty.title, "");
}

#[test]
fn quality_score_counts_known_fields() {
    assert_eq!(result("T", "", "", "").quality_score(), 0);
    assert_eq!(result("", "A", "", "").quality_score(), 1);
    assert_eq!(result("T", "A", "1", "").quality_score(), 2);
    assert_eq!(result("T", "A", "1", "2").quality_score(), 3);
}

#[test]
fn doc_into_result_picks_isbns_by_length_and_joins_authors() {
    let doc = OpenLibraryDoc {
        title: Some("Good Omens".into()),
        author_name: Some(vec!["Terry Pratchett".into(), "Neil Gaiman".into()]),
        isbn: Some(vec![
            "123".into(),
            "9780060853983".into(),
            "0060853980".into(),
            "9780552137034".into(),
            "0552137030".into(),
        ]),
    };
    let r = doc.into_result();
    assert_eq!(r.title, "Good Omens");
    assert_eq!(r.author, "Terry Pratchett, Neil Gaiman");
    assert_eq!(r.isbn10, "0060853980");
    assert_eq!(r.isbn13, "9780060853983");
}

#[test]
fn doc_into_result_counts_bytes_not_characters() {
    // Nine characters but ten bytes: the é takes two.
    let doc = OpenLibraryDoc {
        title: None,
        author_name: Some(vec!["Solo".into()]),
        isbn: Some(vec!["é12345678".into(), "1234567890".into()]),
    };
    let r = doc.into_result();
    assert_eq!(r.title, "");
    assert_eq!(r.author, "Solo");
    assert_eq!(r.isbn10, "é12345678");
    assert_eq!(r.isbn13, "");
}

#[test]
fn doc_into_result_without_fields() {
    let doc = OpenLibraryDoc { title: None, author_name: None, isbn: None };
    let r = doc.into_result();
    assert_eq!(r.title, "");
    assert_eq!(r.author, "");
    assert_eq!(r.isbn10, "");
    assert_eq!(r.isbn13, "");
    let doc = OpenLibraryDoc { title: Some("T".into()), author_name: Some(vec![]), isbn: Some(vec![]) };
    let r = doc.into_result();
    assert_eq!(r.author, "");
    assert_eq!(r.isbn10, "");
}

#[test]
fn search_results_from_answer() {
    let docs = || {
        vec![
            OpenLibraryDoc { title: Some("Dune".into()), author_name: None, isbn: None },
            OpenLibraryDoc {
                title: Some("DUNE".into()),
                author_name: Some(vec!["Frank Herbert".into()]),
                isbn: None,
            },
            OpenLibraryDoc { title: Some("Emma".into()), author_name: None, isbn: None },
        ]
    };
    assert!(search_results(false, docs(), 10).is_empty());
    let r = search_results(true, docs(), 10);
    assert_eq!(r.len(), 2);
    assert_eq!(r[0].title, "DUNE");
    assert_eq!(r[0].author, "Frank Herbert");
    assert_eq!(r[1].title, "Emma");
    assert_eq!(search_results(true, docs(), 1).len(), 1);
}

#[test]
fn fetch_limit_doubles() {
    assert_eq!(fetch_limit(10), 20);
    assert_eq!(fetch_limit(0), 0);
}
