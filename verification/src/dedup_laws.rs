//! What deduplication of search results guarantees, proved over its
//! specification.

use vstd::prelude::*;
use crate::text::{lowercased, trim_spec};
use crate::book_search::{
    best_index, dedup_all, dedup_keyed, dedup_spec, field, filler, first_filled, group, group_entry,
    keys_in_order, limited, merged, quality, title_key, with_title_keys, BookEntry,
};

verus! {

/// A field of `merged(a, b)` is the field of `a` when that one is non-empty,
/// else the field of `b`.
pub proof fn lemma_merged_field(a: BookEntry, b: BookEntry, which: int)
    ensures
        (field(merged(a, b), which).len() > 0) == (field(a, which).len() > 0 || field(b, which).len() > 0),
        field(a, which).len() > 0 ==> field(merged(a, b), which) == field(a, which),
        field(a, which).len() == 0 ==> field(merged(a, b), which) =~= field(b, which),
{
}

/// Field `which` of `filler(g)` is `first_filled(g, which)`.
pub proof fn lemma_filler_field(g: Seq<BookEntry>, which: int)
    ensures
        field(filler(g), which) == first_filled(g, which),
{
    if which != 0 && which != 1 && which != 2 {
        lemma_first_filled_same(g, which, 3);
    }
}

/// Fields that agree on every entry have the same first filled value.
proof fn lemma_first_filled_same(g: Seq<BookEntry>, w1: int, w2: int)
    requires
        forall|e: BookEntry| #[trigger] field(e, w1) == field(e, w2),
    ensures
        first_filled(g, w1) == first_filled(g, w2),
    decreases g.len(),
{
    if g.len() > 0 {
        lemma_first_filled_same(g.drop_last(), w1, w2);
        assert(field(g.last(), w1) == field(g.last(), w2));
    }
}

/// Adding a duplicate to a group fills the filler's gaps from it.
pub proof fn lemma_filler_push(g: Seq<BookEntry>, r: BookEntry)
    ensures
        filler(g.push(r)) == merged(filler(g), r),
{
    let g2 = g.push(r);
    assert(g2.drop_last() =~= g);
    assert forall|which: int| first_filled(g2, which) =~= field(merged(filler(g), r), which) by {
        lemma_filler_field(g, which);
        lemma_merged_field(filler(g), r, which);
    }
    assert(filler(g2).title =~= merged(filler(g), r).title) by {
        assert(first_filled(g2, 0) =~= field(merged(filler(g), r), 0));
    }
    assert(filler(g2).author =~= merged(filler(g), r).author) by {
        assert(first_filled(g2, 1) =~= field(merged(filler(g), r), 1));
    }
    assert(filler(g2).isbn10 =~= merged(filler(g), r).isbn10) by {
        assert(first_filled(g2, 2) =~= field(merged(filler(g), r), 2));
    }
    assert(filler(g2).isbn13 =~= merged(filler(g), r).isbn13) by {
        assert(first_filled(g2, 3) =~= field(merged(filler(g), r), 3));
    }
}

/// `best_index(g)` is the first position of highest quality in `g`.
pub proof fn lemma_best_index(g: Seq<BookEntry>)
    requires
        g.len() > 0,
    ensures
        0 <= best_index(g) < g.len(),
        forall|j: int| 0 <= j < g.len() ==> quality(#[trigger] g[j]) <= quality(g[best_index(g)]),
        forall|j: int| 0 <= j < best_index(g) ==> quality(#[trigger] g[j]) < quality(g[best_index(g)]),
    decreases g.len(),
{
    if g.len() > 1 {
        let h = g.drop_last();
        lemma_best_index(h);
        let b = best_index(h);
        assert(h[b] == g[b]);
        assert forall|j: int| 0 <= j < g.len() implies quality(#[trigger] g[j]) <= quality(g[best_index(g)]) by {
            if j < h.len() {
                assert(h[j] == g[j]);
            }
        }
        assert forall|j: int| 0 <= j < best_index(g) implies quality(#[trigger] g[j]) < quality(g[best_index(g)]) by {
            assert(h[j] == g[j]);
        }
    }
}

/// A key has been seen exactly when its group is not empty.
pub proof fn lemma_keys_in_order_group(ps: Seq<(Seq<char>, BookEntry)>, k: Seq<char>)
    ensures
        keys_in_order(ps).contains(k) <==> group(ps, k).len() > 0,
        keys_in_order(ps).len() <= ps.len(),
    decreases ps.len(),
{
    if ps.len() > 0 {
        lemma_keys_in_order_group(ps.drop_last(), k);
        lemma_keys_in_order_group(ps.drop_last(), ps.last().0);
        let ks = keys_in_order(ps.drop_last());
        if !ks.contains(ps.last().0) {
            assert(ks.push(ps.last().0)[ks.len() as int] == ps.last().0);
            if ks.push(ps.last().0).contains(k) && k != ps.last().0 {
                let j = choose|j: int| 0 <= j < ks.len() + 1 && ks.push(ps.last().0)[j] == k;
                assert(ks[j] == k);
            }
            if ks.contains(k) {
                let j = choose|j: int| 0 <= j < ks.len() && ks[j] == k;
                assert(ks.push(ps.last().0)[j] == k);
            }
        }
    }
}

/// The keys in first-seen order are distinct.
pub proof fn lemma_keys_in_order_distinct(ps: Seq<(Seq<char>, BookEntry)>)
    ensures
        forall|i: int, j: int|
            0 <= i < j < keys_in_order(ps).len() ==> keys_in_order(ps)[i] != keys_in_order(ps)[j],
    decreases ps.len(),
{
    if ps.len() > 0 {
        lemma_keys_in_order_distinct(ps.drop_last());
        let ks = keys_in_order(ps.drop_last());
        if !ks.contains(ps.last().0) {
            let ks2 = ks.push(ps.last().0);
            assert forall|i: int, j: int| 0 <= i < j < ks2.len() implies ks2[i] != ks2[j] by {
                if j == ks.len() {
                    assert(ks2[i] == ks[i]);
                    if ks[i] == ps.last().0 {
                        assert(ks.contains(ps.last().0));
                    }
                } else {
                    assert(ks2[i] == ks[i] && ks2[j] == ks[j]);
                }
            }
        }
    }
}

/// Some result in `rs` whose title has key `k` has field `which` non-empty.
pub open spec fn group_has(rs: Seq<BookEntry>, k: Seq<char>, which: int) -> bool {
    exists|j: int|
        #![trigger rs[j]]
        0 <= j < rs.len() && title_key(rs[j].title) == k && field(rs[j], which).len() > 0
}

/// Some result in `rs` whose title has key `k` has `v` as field `which`.
pub open spec fn from_group(rs: Seq<BookEntry>, k: Seq<char>, which: int, v: Seq<char>) -> bool {
    exists|j: int| #![trigger rs[j]] 0 <= j < rs.len() && title_key(rs[j].title) == k && field(rs[j], which) == v
}

/// No two entries of `d` share a title key.
pub open spec fn keys_distinct(d: Seq<BookEntry>) -> bool {
    forall|i: int, j: int|
        0 <= i < j < d.len() ==> title_key((#[trigger] d[i]).title) != title_key((#[trigger] d[j]).title)
}

/// The first position in `ps` with key `k`, or -1 when there is none.
pub open spec fn first_key_pos(ps: Seq<(Seq<char>, BookEntry)>, k: Seq<char>) -> int
    decreases ps.len(),
{
    if ps.len() == 0 {
        -1
    } else {
        let r = first_key_pos(ps.drop_last(), k);
        if r >= 0 {
            r
        } else if ps.last().0 == k {
            ps.len() - 1
        } else {
            -1
        }
    }
}

/// Some result in `ps` has key `k` and entry `e`.
pub open spec fn keyed_in(ps: Seq<(Seq<char>, BookEntry)>, k: Seq<char>, e: BookEntry) -> bool {
    exists|j: int| #![trigger ps[j]] 0 <= j < ps.len() && ps[j].0 == k && ps[j].1 == e
}

/// The members of a group are exactly the results with its key.
pub proof fn lemma_group_members(ps: Seq<(Seq<char>, BookEntry)>, k: Seq<char>)
    ensures
        forall|i: int| 0 <= i < group(ps, k).len() ==> keyed_in(ps, k, #[trigger] group(ps, k)[i]),
        forall|j: int| 0 <= j < ps.len() && (#[trigger] ps[j]).0 == k ==> group(ps, k).contains(ps[j].1),
    decreases ps.len(),
{
    if ps.len() > 0 {
        let q = ps.drop_last();
        lemma_group_members(q, k);
        let g = group(q, k);
        let g2 = group(ps, k);
        assert forall|i: int| 0 <= i < group(ps, k).len() implies keyed_in(ps, k, #[trigger] group(ps, k)[i]) by {
            if i < g.len() {
                assert(keyed_in(q, k, g[i]));
                let j = choose|j: int| #![trigger q[j]] 0 <= j < q.len() && q[j].0 == k && q[j].1 == g[i];
                assert(ps[j] == q[j]);
                if ps.last().0 == k {
                    assert(g2[i] == g[i]);
                }
            } else {
                assert(ps[ps.len() - 1] == ps.last());
            }
        }
        assert forall|j: int| 0 <= j < ps.len() && (#[trigger] ps[j]).0 == k implies g2.contains(ps[j].1) by {
            if j < q.len() {
                assert(q[j] == ps[j]);
                let i = choose|i: int| 0 <= i < g.len() && g[i] == q[j].1;
                if ps.last().0 == k {
                    assert(g2[i] == g[i]);
                }
            } else {
                assert(g2[g.len() as int] == ps.last().1);
            }
        }
    } else {
        assert(group(ps, k).len() == 0);
    }
}

/// What `first_filled` finds: a field of some member, non-empty exactly when
/// some member has it, and then that of the first such member.
pub proof fn lemma_first_filled(g: Seq<BookEntry>, w: int)
    ensures
        g.len() > 0 ==> exists|j: int| 0 <= j < g.len() && first_filled(g, w) == field(#[trigger] g[j], w),
        (first_filled(g, w).len() > 0) == (exists|j: int| 0 <= j < g.len() && field(#[trigger] g[j], w).len() > 0),
        first_filled(g, w).len() > 0 ==> exists|j: int|
            0 <= j < g.len() && first_filled(g, w) == field(#[trigger] g[j], w) && forall|i: int|
                0 <= i < j ==> field(#[trigger] g[i], w).len() == 0,
    decreases g.len(),
{
    if g.len() > 0 {
        let h = g.drop_last();
        lemma_first_filled(h, w);
        assert forall|j: int| 0 <= j < h.len() implies #[trigger] h[j] == g[j] by {}
        let f = first_filled(h, w);
        if f.len() > 0 {
            let j = choose|j: int|
                0 <= j < h.len() && f == field(#[trigger] h[j], w) && forall|i: int|
                    0 <= i < j ==> field(#[trigger] h[i], w).len() == 0;
            assert(first_filled(g, w) == field(g[j], w));
            assert forall|i: int| 0 <= i < j implies field(#[trigger] g[i], w).len() == 0 by {
                assert(h[i] == g[i]);
            }
        } else {
            assert(first_filled(g, w) == field(g[g.len() - 1], w));
            assert forall|i: int| 0 <= i < g.len() - 1 implies field(#[trigger] g[i], w).len() == 0 by {
                assert(h[i] == g[i]);
            }
        }
    }
}

/// A field of a group's entry: that of its base when non-empty, else the
/// first non-empty one among the group.
pub proof fn lemma_group_entry_field(g: Seq<BookEntry>, w: int)
    requires
        g.len() > 0,
    ensures
        field(group_entry(g), w) == (if field(g[best_index(g)], w).len() > 0 {
            field(g[best_index(g)], w)
        } else {
            first_filled(g, w)
        }),
{
    lemma_merged_field(g[best_index(g)], filler(g), w);
    lemma_filler_field(g, w);
}

/// Positions at which keys are first seen grow along `keys_in_order`.
pub proof fn lemma_first_key_pos(ps: Seq<(Seq<char>, BookEntry)>)
    ensures
        forall|k: Seq<char>|
            #![trigger first_key_pos(ps, k)]
            (first_key_pos(ps, k) >= 0) == keys_in_order(ps).contains(k),
        forall|k: Seq<char>| #![trigger first_key_pos(ps, k)] first_key_pos(ps, k) < ps.len(),
        forall|i: int, i2: int|
            0 <= i < i2 < keys_in_order(ps).len() ==> 0 <= first_key_pos(ps, #[trigger] keys_in_order(ps)[i])
                < first_key_pos(ps, #[trigger] keys_in_order(ps)[i2]),
    decreases ps.len(),
{
    if ps.len() > 0 {
        let q = ps.drop_last();
        lemma_first_key_pos(q);
        let ks = keys_in_order(q);
        let k0 = ps.last().0;
        assert forall|k: Seq<char>| #![trigger first_key_pos(ps, k)] (first_key_pos(ps, k) >= 0)
            == keys_in_order(ps).contains(k) by {
            assert((first_key_pos(q, k) >= 0) == ks.contains(k));
            if !ks.contains(k0) {
                let ks2 = ks.push(k0);
                assert(ks2[ks.len() as int] == k0);
                if ks.contains(k) {
                    let j = choose|j: int| 0 <= j < ks.len() && ks[j] == k;
                    assert(ks2[j] == k);
                }
                if ks2.contains(k) && k != k0 {
                    let j = choose|j: int| 0 <= j < ks2.len() && ks2[j] == k;
                    assert(ks[j] == k);
                }
            }
        }
        assert forall|k: Seq<char>| #![trigger first_key_pos(ps, k)] first_key_pos(ps, k) < ps.len() by {
            assert(first_key_pos(q, k) < q.len());
        }
        if !ks.contains(k0) {
            let ks2 = ks.push(k0);
            assert forall|i: int, i2: int| 0 <= i < i2 < ks2.len() implies 0 <= first_key_pos(ps, #[trigger] ks2[i])
                < first_key_pos(ps, #[trigger] ks2[i2]) by {
                assert(ks2[i] == ks[i]);
                assert(ks.contains(ks[i]));
                assert(first_key_pos(q, ks[i]) >= 0);
                assert(first_key_pos(q, ks[i]) < q.len());
                if i2 < ks.len() {
                    assert(ks2[i2] == ks[i2]);
                    assert(ks.contains(ks[i2]));
                    assert(first_key_pos(q, ks[i2]) >= 0);
                } else {
                    assert(first_key_pos(q, k0) < 0);
                }
            }
        } else {
            assert forall|i: int, i2: int| 0 <= i < i2 < ks.len() implies 0 <= first_key_pos(ps, #[trigger] ks[i])
                < first_key_pos(ps, #[trigger] ks[i2]) by {
                assert(ks.contains(ks[i]));
                assert(ks.contains(ks[i2]));
                assert(first_key_pos(q, ks[i]) >= 0);
                assert(first_key_pos(q, ks[i2]) >= 0);
            }
        }
    }
}

/// Entry `i` of `dedup_all(rs)` stands for the group of the `i`-th key seen:
/// the group is not empty, its members have that key, and so has the title
/// of the entry.
pub proof fn lemma_dedup_entry(rs: Seq<BookEntry>, i: int)
    requires
        0 <= i < keys_in_order(with_title_keys(rs)).len(),
    ensures
        dedup_all(rs).len() == keys_in_order(with_title_keys(rs)).len(),
        group(with_title_keys(rs), keys_in_order(with_title_keys(rs))[i]).len() > 0,
        dedup_all(rs)[i] == group_entry(group(with_title_keys(rs), keys_in_order(with_title_keys(rs))[i])),
        forall|m: int|
            0 <= m < group(with_title_keys(rs), keys_in_order(with_title_keys(rs))[i]).len() ==> title_key(
                (#[trigger] group(with_title_keys(rs), keys_in_order(with_title_keys(rs))[i])[m]).title,
            ) == keys_in_order(with_title_keys(rs))[i],
        title_key(dedup_all(rs)[i].title) == keys_in_order(with_title_keys(rs))[i],
{
    let ps = with_title_keys(rs);
    let k = keys_in_order(ps)[i];
    let g = group(ps, k);
    lemma_keys_in_order_group(ps, k);
    assert(keys_in_order(ps).contains(k));
    lemma_group_members(ps, k);
    assert forall|m: int| 0 <= m < g.len() implies title_key((#[trigger] g[m]).title) == k by {
        assert(keyed_in(ps, k, g[m]));
        let j = choose|j: int| #![trigger ps[j]] 0 <= j < ps.len() && ps[j].0 == k && ps[j].1 == g[m];
        assert(ps[j] == (title_key(rs[j].title), rs[j]));
    }
    lemma_group_entry_field(g, 0);
    lemma_first_filled(g, 0);
    lemma_best_index(g);
}

/// Deduplication leaves no two results whose titles agree up to case and
/// surrounding white space.
pub proof fn law_dedup_titles_distinct(rs: Seq<BookEntry>, limit: nat)
    ensures
        keys_distinct(dedup_spec(rs, limit)),
{
    let ps = with_title_keys(rs);
    let d = dedup_all(rs);
    let out = dedup_spec(rs, limit);
    lemma_keys_in_order_distinct(ps);
    assert forall|i: int, j: int| 0 <= i < j < out.len() implies title_key((#[trigger] out[i]).title) != title_key(
        (#[trigger] out[j]).title,
    ) by {
        lemma_dedup_entry(rs, i);
        lemma_dedup_entry(rs, j);
        assert(out[i] == d[i] && out[j] == d[j]);
    }
}

/// Deduplication keeps the order in which titles were first seen: every
/// output title occurs in the input, and of two output entries the earlier
/// one's title was seen first.
pub proof fn law_dedup_first_seen_order(rs: Seq<BookEntry>, limit: nat)
    ensures
        forall|i: int|
            0 <= i < dedup_spec(rs, limit).len() ==> first_key_pos(
                with_title_keys(rs),
                title_key((#[trigger] dedup_spec(rs, limit)[i]).title),
            ) >= 0,
        forall|i: int, i2: int|
            0 <= i < i2 < dedup_spec(rs, limit).len() ==> first_key_pos(
                with_title_keys(rs),
                title_key((#[trigger] dedup_spec(rs, limit)[i]).title),
            ) < first_key_pos(with_title_keys(rs), title_key((#[trigger] dedup_spec(rs, limit)[i2]).title)),
{
    let ps = with_title_keys(rs);
    let ks = keys_in_order(ps);
    let d = dedup_all(rs);
    let out = dedup_spec(rs, limit);
    lemma_first_key_pos(ps);
    assert forall|i: int| 0 <= i < out.len() implies first_key_pos(ps, title_key((#[trigger] out[i]).title)) >= 0 by {
        lemma_dedup_entry(rs, i);
        assert(out[i] == d[i]);
        assert(ks.contains(ks[i]));
    }
    assert forall|i: int, i2: int| 0 <= i < i2 < out.len() implies first_key_pos(
        ps,
        title_key((#[trigger] out[i]).title),
    ) < first_key_pos(ps, title_key((#[trigger] out[i2]).title)) by {
        lemma_dedup_entry(rs, i);
        lemma_dedup_entry(rs, i2);
        assert(out[i] == d[i] && out[i2] == d[i2]);
        assert(0 <= first_key_pos(ps, ks[i]) < first_key_pos(ps, ks[i2]));
    }
}

/// The base of each output entry is the first result of highest quality
/// among those with its title key; its non-empty fields are kept, and each
/// of its empty fields is taken from the first such result that has it.
pub proof fn law_dedup_best_entry_is_base(rs: Seq<BookEntry>, limit: nat, i: int)
    requires
        0 <= i < dedup_spec(rs, limit).len(),
    ensures
        ({
            let g = group(with_title_keys(rs), title_key(dedup_spec(rs, limit)[i].title));
            let b = best_index(g);
            &&& 0 <= b < g.len()
            &&& forall|j: int| 0 <= j < g.len() ==> quality(#[trigger] g[j]) <= quality(g[b])
            &&& forall|j: int| 0 <= j < b ==> quality(#[trigger] g[j]) < quality(g[b])
            &&& forall|w: int|
                field(g[b], w).len() > 0 ==> #[trigger] field(dedup_spec(rs, limit)[i], w) == field(g[b], w)
            &&& forall|w: int|
                field(g[b], w).len() == 0 ==> #[trigger] field(dedup_spec(rs, limit)[i], w) == first_filled(g, w)
        }),
{
    let d = dedup_all(rs);
    let out = dedup_spec(rs, limit);
    lemma_dedup_entry(rs, i);
    assert(out[i] == d[i]);
    let g = group(with_title_keys(rs), title_key(out[i].title));
    lemma_best_index(g);
    assert forall|w: int| field(g[best_index(g)], w).len() > 0 implies #[trigger] field(out[i], w) == field(
        g[best_index(g)],
        w,
    ) by {
        lemma_group_entry_field(g, w);
    }
    assert forall|w: int| field(g[best_index(g)], w).len() == 0 implies #[trigger] field(out[i], w) == first_filled(
        g,
        w,
    ) by {
        lemma_group_entry_field(g, w);
    }
}

/// The group of a key lists the results whose titles have that key, in
/// input order.
pub proof fn law_group_is_filter(rs: Seq<BookEntry>, k: Seq<char>)
    ensures
        group(with_title_keys(rs), k) == rs.filter(|r: BookEntry| title_key(r.title) == k),
    decreases rs.len(),
{
    reveal_with_fuel(Seq::<_>::filter, 1);
    if rs.len() > 0 {
        law_group_is_filter(rs.drop_last(), k);
        assert(with_title_keys(rs).drop_last() =~= with_title_keys(rs.drop_last()));
    }
}

/// Merging fills gaps: each field of the merged entry is the field of `a`
/// when that one is non-empty, else the field of `b`; so a field of the
/// merged entry is non-empty exactly when it is non-empty in `a` or in `b`,
/// and the merged entry is of at least the quality of either.
pub proof fn law_merge_fills_gaps(a: BookEntry, b: BookEntry)
    ensures
        forall|which: int|
            (#[trigger] field(merged(a, b), which).len() > 0) == (field(a, which).len() > 0 || field(
                b,
                which,
            ).len() > 0),
        forall|which: int|
            field(a, which).len() > 0 ==> #[trigger] field(merged(a, b), which) == field(a, which),
        quality(merged(a, b)) >= quality(a),
        quality(merged(a, b)) >= quality(b),
{
    assert forall|which: int| (#[trigger] field(merged(a, b), which).len() > 0) == (field(a, which).len() > 0
        || field(b, which).len() > 0) by {
        lemma_merged_field(a, b, which);
    }
}

/// Merging an entry with itself, or merging the same entry in twice, changes
/// nothing more.
pub proof fn law_merge_idempotent(a: BookEntry, b: BookEntry)
    ensures
        merged(a, a) == a,
        merged(merged(a, b), b) == merged(a, b),
{
    assert(merged(a, a) =~= a);
    assert(merged(merged(a, b), b) =~= merged(a, b));
}

/// Deduplication loses no information: a field of an output entry is
/// non-empty exactly when some input result with the same title key has it
/// non-empty.
pub proof fn law_dedup_merges_fields(rs: Seq<BookEntry>, limit: nat)
    ensures
        forall|i: int, which: int|
            0 <= i < dedup_spec(rs, limit).len() ==> ((#[trigger] field(
                dedup_spec(rs, limit)[i],
                which,
            ).len() > 0) == group_has(rs, title_key(dedup_spec(rs, limit)[i].title), which)),
{
    let ps = with_title_keys(rs);
    let d = dedup_all(rs);
    let out = dedup_spec(rs, limit);
    assert forall|i: int, which: int| 0 <= i < out.len() implies ((#[trigger] field(out[i], which).len() > 0)
        == group_has(rs, title_key(out[i].title), which)) by {
        lemma_dedup_entry(rs, i);
        assert(out[i] == d[i]);
        let k = keys_in_order(ps)[i];
        let g = group(ps, k);
        lemma_best_index(g);
        lemma_group_entry_field(g, which);
        lemma_first_filled(g, which);
        lemma_group_members(ps, k);
        let some_member = exists|m: int| 0 <= m < g.len() && field(#[trigger] g[m], which).len() > 0;
        if field(out[i], which).len() > 0 {
            assert(some_member);
            let m = choose|m: int| 0 <= m < g.len() && field(#[trigger] g[m], which).len() > 0;
            assert(keyed_in(ps, k, g[m]));
            let j = choose|j: int| #![trigger ps[j]] 0 <= j < ps.len() && ps[j].0 == k && ps[j].1 == g[m];
            assert(rs[j] == g[m]);
        }
        if group_has(rs, k, which) {
            let j = choose|j: int|
                #![trigger rs[j]]
                0 <= j < rs.len() && title_key(rs[j].title) == k && field(rs[j], which).len() > 0;
            assert(ps[j] == (title_key(rs[j].title), rs[j]));
            assert(g.contains(ps[j].1));
            let m = choose|m: int| 0 <= m < g.len() && g[m] == ps[j].1;
            assert(field(g[m], which).len() > 0);
        }
    }
}

/// Deduplication invents nothing: every non-empty field of an output entry
/// is that field of some input result with the same title key.
pub proof fn law_dedup_fields_come_from_input(rs: Seq<BookEntry>, limit: nat)
    ensures
        forall|i: int, which: int|
            0 <= i < dedup_spec(rs, limit).len() ==> #[trigger] field(dedup_spec(rs, limit)[i], which).len()
                == 0 || from_group(
                rs,
                title_key(dedup_spec(rs, limit)[i].title),
                which,
                field(dedup_spec(rs, limit)[i], which),
            ),
{
    let ps = with_title_keys(rs);
    let d = dedup_all(rs);
    let out = dedup_spec(rs, limit);
    assert forall|i: int, which: int| 0 <= i < out.len() implies #[trigger] field(out[i], which).len() == 0
        || from_group(rs, title_key(out[i].title), which, field(out[i], which)) by {
        lemma_dedup_entry(rs, i);
        assert(out[i] == d[i]);
        let k = keys_in_order(ps)[i];
        let g = group(ps, k);
        lemma_best_index(g);
        lemma_group_entry_field(g, which);
        lemma_first_filled(g, which);
        lemma_group_members(ps, k);
        let v = field(out[i], which);
        let m = if field(g[best_index(g)], which).len() > 0 {
            best_index(g)
        } else {
            choose|m: int| 0 <= m < g.len() && first_filled(g, which) == field(#[trigger] g[m], which)
        };
        assert(0 <= m < g.len() && field(g[m], which) == v);
        assert(keyed_in(ps, k, g[m]));
        let j = choose|j: int| #![trigger ps[j]] 0 <= j < ps.len() && ps[j].0 == k && ps[j].1 == g[m];
        assert(rs[j] == g[m]);
    }
}

/// The output holds at most `limit` entries and no more than the input; with
/// a limit no smaller than the input, nothing is cut and every input title is
/// represented.
pub proof fn law_dedup_size(rs: Seq<BookEntry>, limit: nat)
    ensures
        dedup_spec(rs, limit).len() <= limit,
        dedup_spec(rs, limit).len() <= rs.len(),
        limit >= rs.len() ==> dedup_spec(rs, limit) == dedup_all(rs),
        limit >= rs.len() ==> forall|j: int|
            #![trigger rs[j]]
            0 <= j < rs.len() ==> exists|i: int|
                0 <= i < dedup_spec(rs, limit).len() && title_key(
                    (#[trigger] dedup_spec(rs, limit)[i]).title,
                ) == title_key(rs[j].title),
{
    let ps = with_title_keys(rs);
    let ks = keys_in_order(ps);
    lemma_keys_in_order_group(ps, Seq::empty());
    if limit >= rs.len() {
        let out = dedup_spec(rs, limit);
        assert forall|j: int| #![trigger rs[j]] 0 <= j < rs.len() implies exists|i: int|
            0 <= i < out.len() && title_key((#[trigger] out[i]).title) == title_key(rs[j].title) by {
            let k = title_key(rs[j].title);
            lemma_group_members(ps, k);
            assert(ps[j] == (k, rs[j]));
            lemma_keys_in_order_group(ps, k);
            assert(group(ps, k).contains(rs[j]));
            assert(group(ps, k).len() > 0);
            let i = choose|i: int| 0 <= i < ks.len() && ks[i] == k;
            lemma_dedup_entry(rs, i);
        }
    }
}

/// A smaller limit gives a prefix of what a larger limit gives.
pub proof fn law_dedup_limit_prefix(rs: Seq<BookEntry>, small: nat, large: nat)
    requires
        small <= large,
    ensures
        dedup_spec(rs, small).len() <= dedup_spec(rs, large).len(),
        dedup_spec(rs, small) == dedup_spec(rs, large).take(dedup_spec(rs, small).len() as int),
{
    assert(dedup_spec(rs, small) =~= dedup_spec(rs, large).take(dedup_spec(rs, small).len() as int));
}

/// A group of one result stands for that result unchanged.
proof fn lemma_single_group(r: BookEntry)
    ensures
        group_entry(seq![r]) == r,
{
    let g = seq![r];
    assert(g =~= Seq::<BookEntry>::empty().push(r));
    lemma_filler_push(Seq::<BookEntry>::empty(), r);
    assert(best_index(g) == 0);
    assert(group_entry(g) =~= r);
}

/// Results whose titles are all distinct up to case and surrounding white
/// space come out unchanged, up to the limit.
pub proof fn law_dedup_keeps_unique(rs: Seq<BookEntry>, limit: nat)
    requires
        keys_distinct(rs),
    ensures
        dedup_all(rs) == rs,
        dedup_spec(rs, limit) == rs.take(if rs.len() <= limit { rs.len() as int } else { limit as int }),
{
    lemma_unique_groups(rs);
    let ps = with_title_keys(rs);
    assert forall|i: int| 0 <= i < rs.len() implies #[trigger] dedup_all(rs)[i] == rs[i] by {
        lemma_single_group(rs[i]);
    }
    assert(dedup_all(rs) =~= rs);
    assert(rs.take(rs.len() as int) =~= rs);
}

/// With distinct title keys, the keys in first-seen order are the keys of
/// the results, and each group holds one result.
proof fn lemma_unique_groups(rs: Seq<BookEntry>)
    requires
        keys_distinct(rs),
    ensures
        keys_in_order(with_title_keys(rs)).len() == rs.len(),
        forall|i: int|
            0 <= i < rs.len() ==> #[trigger] keys_in_order(with_title_keys(rs))[i] == title_key(rs[i].title),
        forall|i: int|
            0 <= i < rs.len() ==> group(with_title_keys(rs), #[trigger] title_key(rs[i].title)) == seq![rs[i]],
    decreases rs.len(),
{
    if rs.len() > 0 {
        let prev = rs.drop_last();
        let r = rs.last();
        let k = title_key(r.title);
        assert(keys_distinct(prev)) by {
            assert forall|i: int, j: int| 0 <= i < j < prev.len() implies title_key((#[trigger] prev[i]).title)
                != title_key((#[trigger] prev[j]).title) by {
                assert(prev[i] == rs[i] && prev[j] == rs[j]);
            }
        }
        lemma_unique_groups(prev);
        let ps = with_title_keys(rs);
        let q = with_title_keys(prev);
        assert(ps.drop_last() =~= q);
        assert(ps.last() == (k, r));
        let ks = keys_in_order(q);
        assert(!ks.contains(k)) by {
            if ks.contains(k) {
                let i = choose|i: int| 0 <= i < ks.len() && ks[i] == k;
                assert(prev[i] == rs[i]);
                assert(title_key(rs[i].title) == title_key(rs[rs.len() - 1].title));
            }
        }
        lemma_keys_in_order_group(q, k);
        assert(group(q, k).len() == 0);
        assert(group(ps, k) =~= seq![r]);
        assert forall|i: int| 0 <= i < rs.len() implies #[trigger] keys_in_order(ps)[i] == title_key(rs[i].title) by {
            if i < prev.len() {
                assert(prev[i] == rs[i]);
            }
        }
        assert forall|i: int| 0 <= i < rs.len() implies group(ps, #[trigger] title_key(rs[i].title)) == seq![rs[i]] by {
            if i < prev.len() {
                assert(prev[i] == rs[i]);
                assert(title_key(rs[i].title) != k);
                assert(group(q, title_key(prev[i].title)) == seq![prev[i]]);
            }
        }
    }
}

/// The deduplication key of a title is the whole title, trimmed of
/// surrounding white space and lowercased; no part of it is left out.
pub proof fn law_title_key_is_whole_title(t: Seq<char>)
    ensures
        title_key(t) == lowercased(trim_spec(t)),
{
}

/// Results whose whole titles, trimmed and lowercased, differ pairwise are
/// never merged: all of them come out, in order, up to the limit.
pub proof fn law_dedup_keeps_different_titles(rs: Seq<BookEntry>, limit: nat)
    requires
        forall|i: int, j: int|
            0 <= i < j < rs.len() ==> lowercased(trim_spec((#[trigger] rs[i]).title)) != lowercased(
                trim_spec((#[trigger] rs[j]).title),
            ),
    ensures
        dedup_spec(rs, limit) == rs.take(if rs.len() <= limit { rs.len() as int } else { limit as int }),
        dedup_all(rs) == rs,
{
    assert(keys_distinct(rs)) by {
        assert forall|i: int, j: int| 0 <= i < j < rs.len() implies title_key((#[trigger] rs[i]).title)
            != title_key((#[trigger] rs[j]).title) by {
            law_title_key_is_whole_title(rs[i].title);
            law_title_key_is_whole_title(rs[j].title);
        }
    }
    law_dedup_keeps_unique(rs, limit);
}

/// Deduplicating twice is deduplicating once.
pub proof fn law_dedup_idempotent(rs: Seq<BookEntry>)
    ensures
        dedup_all(dedup_all(rs)) == dedup_all(rs),
{
    law_dedup_titles_distinct(rs, rs.len());
    law_dedup_size(rs, rs.len());
    law_dedup_keeps_unique(dedup_all(rs), 0);
}

} // verus!
