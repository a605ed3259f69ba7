//! Book search results: quality, merging of duplicate entries and
//! deduplication by case-insensitive title.

use vstd::prelude::*;
use crate::text::{
    join_spec, join_with, law_join_layout, lowercased, part_offset, strings, trim, trim_spec,
    to_lowercase,
};
use vstd::utf8::encode_utf8;
use crate::dedup_laws::{lemma_best_index, lemma_filler_push, lemma_keys_in_order_distinct, lemma_keys_in_order_group};

verus! {

/// One result of a book search.
#[derive(Debug, Clone)]
pub struct BookSearchResult {
    pub title: String,
    pub author: String,
    pub isbn10: String,
    pub isbn13: String,
}

/// The abstract value of a search result: its four texts.
#[verifier::ext_equal]
pub struct BookEntry {
    pub title: Seq<char>,
    pub author: Seq<char>,
    pub isbn10: Seq<char>,
    pub isbn13: Seq<char>,
}

impl View for BookSearchResult {
    type V = BookEntry;

    open spec fn view(&self) -> BookEntry {
        BookEntry {
            title: self.title@,
            author: self.author@,
            isbn10: self.isbn10@,
            isbn13: self.isbn13@,
        }
    }
}

/// A field after filling: kept when non-empty, else taken from `theirs`.
pub open spec fn fill(mine: Seq<char>, theirs: Seq<char>) -> Seq<char> {
    if mine.len() == 0 && theirs.len() > 0 {
        theirs
    } else {
        mine
    }
}

/// `a` with each of its empty fields filled in from `b`.
pub open spec fn merged(a: BookEntry, b: BookEntry) -> BookEntry {
    BookEntry {
        title: fill(a.title, b.title),
        author: fill(a.author, b.author),
        isbn10: fill(a.isbn10, b.isbn10),
        isbn13: fill(a.isbn13, b.isbn13),
    }
}

/// 1 for a non-empty text, 0 for an empty one.
pub open spec fn present(s: Seq<char>) -> nat {
    if s.len() > 0 { 1 } else { 0 }
}

/// How many of author, ISBN-10 and ISBN-13 are known.
pub open spec fn quality(e: BookEntry) -> nat {
    present(e.author) + present(e.isbn10) + present(e.isbn13)
}

impl BookSearchResult {
    /// Merge another result into this one, filling in any empty fields.
    pub fn merge(&mut self, other: &BookSearchResult)
        ensures
            final(self)@ == merged(old(self)@, other@),
    {
        if self.title.as_str().is_empty() && !other.title.as_str().is_empty() {
            self.title = other.title.clone();
        }
        if self.author.as_str().is_empty() && !other.author.as_str().is_empty() {
            self.author = other.author.clone();
        }
        if self.isbn10.as_str().is_empty() && !other.isbn10.as_str().is_empty() {
            self.isbn10 = other.isbn10.clone();
        }
        if self.isbn13.as_str().is_empty() && !other.isbn13.as_str().is_empty() {
            self.isbn13 = other.isbn13.clone();
        }
    }

    /// The number of known fields among author, ISBN-10 and ISBN-13.
    pub fn quality_score(&self) -> (score: u8)
        ensures
            score == quality(self@),
    {
        let mut score: u8 = 0;
        if !self.author.as_str().is_empty() {
            score += 1;
        }
        if !self.isbn10.as_str().is_empty() {
            score += 1;
        }
        if !self.isbn13.as_str().is_empty() {
            score += 1;
        }
        score
    }
}


/// The views of a sequence of results.
pub open spec fn entries(s: Seq<BookSearchResult>) -> Seq<BookEntry> {
    s.map_values(|b: BookSearchResult| b@)
}

/// The deduplication key of a title: trimmed, then lowercased.
pub open spec fn title_key(title: Seq<char>) -> Seq<char> {
    lowercased(trim_spec(title))
}

/// Field `which` of an entry: 0 the title, 1 the author, 2 the ISBN-10,
/// otherwise the ISBN-13.
pub open spec fn field(e: BookEntry, which: int) -> Seq<char> {
    if which == 0 {
        e.title
    } else if which == 1 {
        e.author
    } else if which == 2 {
        e.isbn10
    } else {
        e.isbn13
    }
}

/// The distinct keys of keyed results, in the order they are first seen.
pub open spec fn keys_in_order(ps: Seq<(Seq<char>, BookEntry)>) -> Seq<Seq<char>>
    decreases ps.len(),
{
    if ps.len() == 0 {
        Seq::empty()
    } else {
        let ks = keys_in_order(ps.drop_last());
        if ks.contains(ps.last().0) {
            ks
        } else {
            ks.push(ps.last().0)
        }
    }
}

/// The results with key `k`, in input order.
pub open spec fn group(ps: Seq<(Seq<char>, BookEntry)>, k: Seq<char>) -> Seq<BookEntry>
    decreases ps.len(),
{
    if ps.len() == 0 {
        Seq::empty()
    } else {
        let g = group(ps.drop_last(), k);
        if ps.last().0 == k {
            g.push(ps.last().1)
        } else {
            g
        }
    }
}

/// The position of the first entry of highest quality in `g`.
pub open spec fn best_index(g: Seq<BookEntry>) -> int
    decreases g.len(),
{
    if g.len() <= 1 {
        0
    } else {
        let b = best_index(g.drop_last());
        if quality(g.last()) > quality(g[b]) {
            g.len() - 1
        } else {
            b
        }
    }
}

/// The first non-empty field `which` among `g`, or the empty text.
pub open spec fn first_filled(g: Seq<BookEntry>, which: int) -> Seq<char>
    decreases g.len(),
{
    if g.len() == 0 {
        Seq::empty()
    } else {
        let f = first_filled(g.drop_last(), which);
        if f.len() > 0 {
            f
        } else {
            field(g.last(), which)
        }
    }
}

/// For each field, the first non-empty one among `g`.
pub open spec fn filler(g: Seq<BookEntry>) -> BookEntry {
    BookEntry {
        title: first_filled(g, 0),
        author: first_filled(g, 1),
        isbn10: first_filled(g, 2),
        isbn13: first_filled(g, 3),
    }
}

/// The entry standing for a group of duplicates: its first entry of highest
/// quality, with each empty field filled from the first duplicate that has
/// that field.
pub open spec fn group_entry(g: Seq<BookEntry>) -> BookEntry {
    merged(g[best_index(g)], filler(g))
}

/// Keyed results deduplicated: one entry per key, in first-seen order.
pub open spec fn dedup_keyed(ps: Seq<(Seq<char>, BookEntry)>) -> Seq<BookEntry> {
    keys_in_order(ps).map_values(|k: Seq<char>| group_entry(group(ps, k)))
}

/// `s` cut to at most `limit` elements.
pub open spec fn limited<T>(s: Seq<T>, limit: nat) -> Seq<T> {
    if s.len() <= limit {
        s
    } else {
        s.take(limit as int)
    }
}

/// Each result keyed by its title key.
pub open spec fn with_title_keys(rs: Seq<BookEntry>) -> Seq<(Seq<char>, BookEntry)> {
    rs.map_values(|r: BookEntry| (title_key(r.title), r))
}

/// Each result keyed by the key at its position.
pub open spec fn with_keys(keys: Seq<String>, rs: Seq<BookSearchResult>) -> Seq<(Seq<char>, BookEntry)> {
    Seq::new(rs.len(), |i: int| (keys[i]@, rs[i]@))
}

/// Results deduplicated by title key.
pub open spec fn dedup_all(rs: Seq<BookEntry>) -> Seq<BookEntry> {
    dedup_keyed(with_title_keys(rs))
}

/// Results deduplicated by title key, cut to at most `limit` entries.
pub open spec fn dedup_spec(rs: Seq<BookEntry>, limit: nat) -> Seq<BookEntry> {
    limited(dedup_all(rs), limit)
}

/// Position of the first key in `keys` equal to `key`.
fn find_key(keys: &Vec<String>, key: &String) -> (r: Option<usize>)
    ensures
        r matches Some(i) ==> i < keys.len() && keys@[i as int]@ == key@,
        r is None ==> forall|j: int| 0 <= j < keys.len() ==> (#[trigger] keys@[j])@ != key@,
{
    let mut i: usize = 0;
    while i < keys.len()
        invariant
            i <= keys.len(),
            forall|j: int| 0 <= j < i ==> (#[trigger] keys@[j])@ != key@,
        decreases keys.len() - i,
    {
        if keys[i] == *key {
            return Some(i);
        }
        i += 1;
    }
    None
}

/// An empty result.
fn empty_result() -> (r: BookSearchResult)
    ensures
        r@ == filler(Seq::<BookEntry>::empty()),
{
    let r = BookSearchResult {
        title: String::new(),
        author: String::new(),
        isbn10: String::new(),
        isbn13: String::new(),
    };
    assert(r@ =~= filler(Seq::<BookEntry>::empty()));
    r
}

/// Deduplicate results by the given keys, `keys[i]` being the key of
/// `results[i]`: for each key, in the order keys are first seen, the first
/// result of highest quality, with its empty fields filled from the first
/// duplicate that has them; at most `limit` entries.
pub fn dedup_by_keys(results: Vec<BookSearchResult>, keys: &Vec<String>, limit: usize) -> (deduped: Vec<
    BookSearchResult,
>)
    requires
        keys.len() == results.len(),
    ensures
        entries(deduped@) == limited(dedup_keyed(with_keys(keys@, results@)), limit as nat),
{
    let ghost ps = with_keys(keys@, results@);
    let mut seen: Vec<String> = Vec::new();
    let mut bests: Vec<BookSearchResult> = Vec::new();
    let mut fillers: Vec<BookSearchResult> = Vec::new();
    let mut n: usize = 0;
    broadcast use vstd::std_specs::vec::axiom_spec_into_iter;
    for result in iter: results
        invariant
            iter.seq() == results@,
            ps == with_keys(keys@, results@),
            keys.len() == results.len(),
            n == iter.index(),
            n <= results.len(),
            seen.len() == bests.len(),
            seen.len() == fillers.len(),
            strings(seen@) == keys_in_order(ps.take(n as int)),
            forall|i: int|
                0 <= i < seen.len() ==> (#[trigger] bests@[i])@ == group(ps.take(n as int), seen@[i]@)[best_index(
                    group(ps.take(n as int), seen@[i]@),
                )],
            forall|i: int|
                0 <= i < seen.len() ==> (#[trigger] fillers@[i])@ == filler(group(ps.take(n as int), seen@[i]@)),
    {
        let ghost p = ps.take(n as int);
        let ghost p2 = ps.take(n + 1);
        let ghost k = keys@[n as int]@;
        let ghost g = group(p, k);
        proof {
            assert(p2.drop_last() =~= p);
            assert(p2.last() == (k, result@));
            lemma_keys_in_order_group(p, k);
            lemma_filler_push(g, result@);
            assert forall|i: int| 0 <= i < seen.len() && seen@[i]@ != k implies group(p2, #[trigger] seen@[i]@)
                == group(p, seen@[i]@) by {}
        }
        match find_key(&seen, &keys[n]) {
            Some(idx) => {
                proof {
                    assert(strings(seen@)[idx as int] == k);
                    lemma_keys_in_order_distinct(p);
                    assert forall|i: int| 0 <= i < seen.len() && i != idx implies seen@[i]@ != k by {
                        assert(strings(seen@)[i] == seen@[i]@);
                    }
                    assert(g.len() > 0);
                    assert(group(p2, k) == g.push(result@));
                    assert(group(p2, k).drop_last() =~= g);
                }
                let ghost old_bests = bests@;
                let ghost old_fillers = fillers@;
                let ghost b = best_index(g);
                let ghost g2 = group(p2, k);
                proof {
                    assert(strings(seen@)[idx as int] == seen@[idx as int]@);
                    assert(seen@[idx as int]@ == k);
                    assert(bests@[idx as int]@ == g[b]);
                    assert(g2.drop_last() =~= g);
                    assert(g2.last() == result@);
                    assert(g2.len() > 1);
                    lemma_best_index(g);
                }
                fillers[idx].merge(&result);
                if result.quality_score() > bests[idx].quality_score() {
                    proof {
                        assert(best_index(g2) == g.len());
                        assert(g2[g.len() as int] == result@);
                    }
                    bests.set(idx, result);
                } else {
                    proof {
                        assert(best_index(g2) == b);
                        assert(g2[b] == g[b]);
                    }
                }
                proof {
                    assert(keys_in_order(p2) == keys_in_order(p));
                    assert(seen@[idx as int]@ == k);
                    assert forall|i: int| 0 <= i < seen.len() implies (#[trigger] bests@[i])@ == group(p2, seen@[i]@)[best_index(
                        group(p2, seen@[i]@),
                    )] by {
                        if i != idx {
                            assert(bests@[i] == old_bests[i]);
                        }
                    }
                    assert forall|i: int| 0 <= i < seen.len() implies (#[trigger] fillers@[i])@ == filler(group(p2, seen@[i]@)) by {
                        if i != idx {
                            assert(fillers@[i] == old_fillers[i]);
                        }
                    }
                }
            },
            None => {
                proof {
                    assert(!strings(seen@).contains(k)) by {
                        if strings(seen@).contains(k) {
                            let j = choose|j: int| 0 <= j < strings(seen@).len() && strings(seen@)[j] == k;
                            assert((seen@[j])@ != k);
                        }
                    }
                    assert(g.len() == 0);
                    assert(group(p2, k) =~= seq![result@]);
                    assert(g =~= Seq::<BookEntry>::empty());
                }
                let mut f = empty_result();
                f.merge(&result);
                seen.push(keys[n].clone());
                bests.push(result);
                fillers.push(f);
                proof {
                    assert(strings(seen@) =~= keys_in_order(p2));
                }
            },
        }
        n += 1;
    }
    proof {
        assert(ps.take(n as int) =~= ps);
    }
    bests.truncate(limit);
    let ghost kept = bests@;
    let mut out: Vec<BookSearchResult> = Vec::new();
    let mut i: usize = 0;
    for best in it: bests
        invariant
            it.seq() == kept,
            i == it.index(),
            i <= kept.len(),
            kept.len() <= fillers.len(),
            kept.len() <= limit,
            kept.len() == (if seen.len() <= limit { seen.len() as int } else { limit as int }),
            fillers.len() == seen.len(),
            strings(seen@) == keys_in_order(ps),
            forall|j: int|
                0 <= j < kept.len() ==> (#[trigger] kept[j])@ == group(ps, seen@[j]@)[best_index(
                    group(ps, seen@[j]@),
                )],
            forall|j: int| 0 <= j < seen.len() ==> (#[trigger] fillers@[j])@ == filler(group(ps, seen@[j]@)),
            out@.len() == i,
            forall|j: int| 0 <= j < i ==> (#[trigger] out@[j])@ == group_entry(group(ps, seen@[j]@)),
    {
        let mut e = best;
        e.merge(&fillers[i]);
        out.push(e);
        i += 1;
    }
    proof {
        let d = dedup_keyed(ps);
        assert(d.len() == seen.len());
        assert forall|j: int| 0 <= j < out@.len() implies entries(out@)[j] == limited(d, limit as nat)[j] by {
            assert(strings(seen@)[j] == seen@[j]@);
        }
        assert(entries(out@) =~= limited(d, limit as nat));
    }
    out
}

/// Deduplicate results by case-insensitive title, merging fields from
/// duplicates into the highest-quality entry. Preserves original ordering
/// based on when a title was first seen.
pub fn dedup_results(results: Vec<BookSearchResult>, limit: usize) -> (deduped: Vec<BookSearchResult>)
    ensures
        entries(deduped@) == dedup_spec(entries(results@), limit as nat),
{
    let mut keys: Vec<String> = Vec::new();
    let mut i: usize = 0;
    while i < results.len()
        invariant
            i <= results.len(),
            keys.len() == i,
            forall|j: int| 0 <= j < i ==> (#[trigger] keys@[j])@ == title_key(results@[j]@.title),
        decreases results.len() - i,
    {
        keys.push(to_lowercase(trim(results[i].title.as_str())));
        i += 1;
    }
    proof {
        assert(with_keys(keys@, results@) =~= with_title_keys(entries(results@)));
    }
    dedup_by_keys(results, &keys, limit)
}

/// One document of an Open Library search response, as far as it is read.
pub struct OpenLibraryDoc {
    pub title: Option<String>,
    pub author_name: Option<Vec<String>>,
    pub isbn: Option<Vec<String>>,
}

/// The length in bytes of the UTF-8 encoding of `s`, as `str::len` returns it.
pub open spec fn byte_len(s: Seq<char>) -> usize {
    encode_utf8(s).len() as usize
}

/// The first text in `v` whose UTF-8 encoding is `n` bytes long.
pub open spec fn first_of_len(v: Seq<Seq<char>>, n: usize) -> Option<Seq<char>>
    decreases v.len(),
{
    if v.len() == 0 {
        None
    } else if byte_len(v[0]) == n {
        Some(v[0])
    } else {
        first_of_len(v.drop_first(), n)
    }
}

/// The ISBN of `n` bytes a document lists first, or the empty text.
pub open spec fn isbn_of_len(isbn: Option<Vec<String>>, n: usize) -> Seq<char> {
    match isbn {
        Some(v) => match first_of_len(strings(v@), n) {
            Some(s) => s,
            None => Seq::empty(),
        },
        None => Seq::empty(),
    }
}

/// The search result a document becomes: its title, its authors joined by
/// ", ", and its first ISBN of 10 and of 13 characters; absent parts empty.
pub open spec fn doc_entry(doc: OpenLibraryDoc) -> BookEntry {
    BookEntry {
        title: match doc.title {
            Some(t) => t@,
            None => Seq::empty(),
        },
        author: match doc.author_name {
            Some(a) => join_spec(strings(a@), ", "@),
            None => Seq::empty(),
        },
        isbn10: isbn_of_len(doc.isbn, 10),
        isbn13: isbn_of_len(doc.isbn, 13),
    }
}

/// A copy of the first string in `v` whose length in bytes is `n`.
fn find_of_len(v: &Vec<String>, n: usize) -> (r: Option<String>)
    ensures
        match r {
            Some(s) => first_of_len(strings(v@), n) == Some(s@),
            None => first_of_len(strings(v@), n) is None,
        },
{
    let ghost all = strings(v@);
    let mut i: usize = 0;
    assert(all.skip(0) =~= all);
    while i < v.len()
        invariant
            i <= v.len(),
            all == strings(v@),
            first_of_len(all.skip(i as int), n) == first_of_len(all, n),
        decreases v.len() - i,
    {
        proof {
            assert(all.skip(i as int)[0] == v@[i as int]@);
            assert(all.skip(i as int).drop_first() =~= all.skip(i + 1));
        }
        if v[i].as_str().len() == n {
            return Some(v[i].clone());
        }
        i += 1;
    }
    proof {
        assert(all.skip(i as int).len() == 0);
    }
    None
}

/// The ISBN of `n` bytes listed first, or an empty string.
fn isbn_with_len(isbn: &Option<Vec<String>>, n: usize) -> (r: String)
    ensures
        r@ == isbn_of_len(*isbn, n),
{
    match isbn {
        Some(v) => match find_of_len(v, n) {
            Some(s) => s,
            None => String::new(),
        },
        None => String::new(),
    }
}

impl OpenLibraryDoc {
    /// The search result this document describes.
    pub fn into_result(self) -> (r: BookSearchResult)
        ensures
            r@ == doc_entry(self),
    {
        let isbn10 = isbn_with_len(&self.isbn, 10);
        let isbn13 = isbn_with_len(&self.isbn, 13);
        let title = match self.title {
            Some(t) => t,
            None => String::new(),
        };
        let author = match self.author_name {
            Some(a) => join_with(&a, ", "),
            None => String::new(),
        };
        BookSearchResult { title, author, isbn10, isbn13 }
    }
}

/// Every author name a document lists stands whole in its result's author
/// text, in the listed order, with ", " between each two and nothing else:
/// the text is as long as all names together plus the two characters of
/// each separator, and empty when the document lists no name.
pub proof fn law_doc_author_lists_every_name(doc: OpenLibraryDoc)
    ensures
        ", "@.len() == 2,
        match doc.author_name {
            None => doc_entry(doc).author.len() == 0,
            Some(a) => {
                let names = strings(a@);
                let author = doc_entry(doc).author;
                &&& names.len() == 0 ==> author.len() == 0
                &&& names.len() > 0 ==> author.len() == part_offset(names, ", "@, names.len() - 1)
                    + names.last().len()
                &&& forall|i: int|
                    0 <= i < names.len() ==> author.subrange(
                        part_offset(names, ", "@, i),
                        part_offset(names, ", "@, i) + names[i].len(),
                    ) == #[trigger] names[i]
                &&& forall|i: int|
                    0 <= i < names.len() - 1 ==> author.subrange(
                        part_offset(names, ", "@, i) + (#[trigger] names[i]).len(),
                        part_offset(names, ", "@, i + 1),
                    ) == ", "@
            },
        },
{
    reveal_strlit(", ");
    if let Some(a) = doc.author_name {
        law_join_layout(strings(a@), ", "@);
    }
}

/// How many documents to ask the search service for: twice the number of
/// results wanted, since duplicates are merged away.
pub fn fetch_limit(limit: usize) -> (n: usize)
    requires
        limit * 2 <= usize::MAX,
    ensures
        n == limit * 2,
{
    limit * 2
}

/// The results of a search from the service's answer: none when the answer
/// was not a success, else the documents as results, deduplicated and cut to
/// `limit`.
pub fn search_results(status_is_success: bool, docs: Vec<OpenLibraryDoc>, limit: usize) -> (r: Vec<
    BookSearchResult,
>)
    ensures
        !status_is_success ==> r@.len() == 0,
        status_is_success ==> entries(r@) == dedup_spec(
            docs@.map_values(|d: OpenLibraryDoc| doc_entry(d)),
            limit as nat,
        ),
{
    if !status_is_success {
        return Vec::new();
    }
    let ghost expected = docs@.map_values(|d: OpenLibraryDoc| doc_entry(d));
    let mut results: Vec<BookSearchResult> = Vec::new();
    let mut n: usize = 0;
    broadcast use vstd::std_specs::vec::axiom_spec_into_iter;
    for doc in iter: docs
        invariant
            iter.seq() == docs@,
            expected == docs@.map_values(|d: OpenLibraryDoc| doc_entry(d)),
            n == iter.index(),
            n <= docs.len(),
            entries(results@) == expected.take(n as int),
    {
        let ghost d = doc;
        let ghost before = results@;
        let r = doc.into_result();
        results.push(r);
        proof {
            assert(results@ == before.push(r));
            assert(entries(results@) =~= entries(before).push(doc_entry(d)));
            assert(expected.take(n + 1) =~= expected.take(n as int).push(doc_entry(d)));
            assert(entries(results@) =~= expected.take(n + 1));
        }
        n += 1;
    }
    proof {
        assert(expected.take(n as int) =~= expected);
    }
    dedup_results(results, limit)
}

} // verus!
