//! Text helpers over std string functions whose behaviour the rest of the
//! crate relies on.

use vstd::prelude::*;
use vstd::string::StringExecFns;

verus! {

/// Unicode `White_Space` property, the set of characters `str::trim` removes.
pub open spec fn is_white_space(c: char) -> bool {
    ||| c == '\t'
    ||| c == '\n'
    ||| c == '\u{0B}'
    ||| c == '\u{0C}'
    ||| c == '\r'
    ||| c == ' '
    ||| c == '\u{85}'
    ||| c == '\u{A0}'
    ||| c == '\u{1680}'
    ||| ('\u{2000}' <= c && c <= '\u{200A}')
    ||| c == '\u{2028}'
    ||| c == '\u{2029}'
    ||| c == '\u{202F}'
    ||| c == '\u{205F}'
    ||| c == '\u{3000}'
}

/// `s` without its leading white space.
pub open spec fn trim_start_spec(s: Seq<char>) -> Seq<char>
    decreases s.len(),
{
    if s.len() > 0 && is_white_space(s[0]) {
        trim_start_spec(s.drop_first())
    } else {
        s
    }
}

/// `s` without its trailing white space.
pub open spec fn trim_end_spec(s: Seq<char>) -> Seq<char>
    decreases s.len(),
{
    if s.len() > 0 && is_white_space(s.last()) {
        trim_end_spec(s.drop_last())
    } else {
        s
    }
}

/// `s` without leading and trailing white space.
pub open spec fn trim_spec(s: Seq<char>) -> Seq<char> {
    trim_end_spec(trim_start_spec(s))
}

/// What `str::to_lowercase` returns for a string: the Unicode lowercase
/// mapping, which depends on the string alone.
pub uninterp spec fn lowercased(s: Seq<char>) -> Seq<char>;

/// Calls `str::trim`. Its documentation: the string slice with leading and
/// trailing white space removed, white space being the Unicode `White_Space`
/// property.
#[verifier::external_body]
pub(crate) fn trim(s: &str) -> (r: &str)
    ensures
        r@ == trim_spec(s@),
{
    s.trim()
}

/// Calls `str::to_lowercase`; the result is named `lowercased`, the full
/// Unicode lowercase mapping of the argument. No other property is claimed.
#[verifier::external_body]
pub(crate) fn to_lowercase(s: &str) -> (r: String)
    ensures
        r@ == lowercased(s@),
{
    s.to_lowercase()
}


/// The views of a sequence of strings.
pub open spec fn strings(v: Seq<String>) -> Seq<Seq<char>> {
    v.map_values(|s: String| s@)
}

/// `parts` with `sep` between each two neighbours.
pub open spec fn join_spec(parts: Seq<Seq<char>>, sep: Seq<char>) -> Seq<char>
    decreases parts.len(),
{
    if parts.len() == 0 {
        Seq::empty()
    } else if parts.len() == 1 {
        parts[0]
    } else {
        join_spec(parts.drop_last(), sep) + sep + parts.last()
    }
}

/// `parts` concatenated with `sep` between each two neighbours.
pub fn join_with(parts: &Vec<String>, sep: &str) -> (r: String)
    ensures
        r@ == join_spec(strings(parts@), sep@),
{
    let ghost all = strings(parts@);
    let mut r = String::new();
    let mut i: usize = 0;
    while i < parts.len()
        invariant
            i <= parts.len(),
            all == strings(parts@),
            r@ == join_spec(all.take(i as int), sep@),
        decreases parts.len() - i,
    {
        proof {
            assert(all.take(i + 1).drop_last() =~= all.take(i as int));
        }
        if i > 0 {
            r.append(sep);
        }
        r.append(parts[i].as_str());
        i += 1;
    }
    proof {
        assert(all.take(i as int) =~= all);
    }
    r
}

/// Where part `i` starts in `join_spec(parts, sep)`: after the parts before
/// it and one separator after each of them.
pub open spec fn part_offset(parts: Seq<Seq<char>>, sep: Seq<char>, i: int) -> int
    decreases i,
{
    if i <= 0 {
        0
    } else {
        part_offset(parts, sep, i - 1) + parts[i - 1].len() + sep.len()
    }
}

/// Offsets are never negative.
proof fn lemma_part_offset_nonneg(parts: Seq<Seq<char>>, sep: Seq<char>, i: int)
    ensures
        part_offset(parts, sep, i) >= 0,
    decreases i,
{
    if i > 0 {
        lemma_part_offset_nonneg(parts, sep, i - 1);
    }
}

/// Offsets depend only on the parts before them.
proof fn lemma_part_offset_prefix(parts: Seq<Seq<char>>, sep: Seq<char>, i: int)
    requires
        0 <= i < parts.len(),
    ensures
        part_offset(parts, sep, i) == part_offset(parts.drop_last(), sep, i),
    decreases i,
{
    if i > 0 {
        lemma_part_offset_prefix(parts, sep, i - 1);
        assert(parts[i - 1] == parts.drop_last()[i - 1]);
    }
}

/// Later parts end no earlier than earlier ones.
proof fn lemma_part_offset_grows(parts: Seq<Seq<char>>, sep: Seq<char>, i: int, j: int)
    requires
        0 <= i <= j < parts.len(),
    ensures
        part_offset(parts, sep, i) + parts[i].len() <= part_offset(parts, sep, j) + parts[j].len(),
        part_offset(parts, sep, i) <= part_offset(parts, sep, j),
    decreases j,
{
    if i < j {
        lemma_part_offset_grows(parts, sep, i, j - 1);
    }
}

/// The length of a join: up to the end of its last part.
proof fn lemma_join_len(parts: Seq<Seq<char>>, sep: Seq<char>)
    ensures
        parts.len() == 0 ==> join_spec(parts, sep).len() == 0,
        parts.len() > 0 ==> join_spec(parts, sep).len() == part_offset(parts, sep, parts.len() - 1)
            + parts.last().len(),
    decreases parts.len(),
{
    let n = parts.len() as int;
    if n >= 2 {
        let prev = parts.drop_last();
        lemma_join_len(prev, sep);
        lemma_part_offset_prefix(parts, sep, n - 2);
        assert(prev[n - 2] == parts[n - 2]);
    }
}

/// Part `i` stands whole at its offset in the join.
proof fn lemma_join_part(parts: Seq<Seq<char>>, sep: Seq<char>, i: int)
    requires
        0 <= i < parts.len(),
    ensures
        join_spec(parts, sep).subrange(part_offset(parts, sep, i), part_offset(parts, sep, i) + parts[i].len())
            == parts[i],
    decreases parts.len(),
{
    let n = parts.len() as int;
    let j = join_spec(parts, sep);
    if n == 1 {
        assert(j.subrange(0, parts[0].len() as int) =~= parts[0]);
    } else {
        let prev = parts.drop_last();
        let jp = join_spec(prev, sep);
        lemma_join_len(prev, sep);
        lemma_part_offset_prefix(parts, sep, n - 2);
        assert(prev[n - 2] == parts[n - 2]);
        let a = part_offset(parts, sep, i);
        lemma_part_offset_nonneg(parts, sep, i);
        assert(j == jp + sep + parts.last());
        if i < n - 1 {
            lemma_join_part(prev, sep, i);
            lemma_part_offset_prefix(parts, sep, i);
            lemma_part_offset_grows(prev, sep, i, n - 2);
            assert(prev[i] == parts[i]);
            assert(a + parts[i].len() <= jp.len());
            assert(j.subrange(a, a + parts[i].len()) =~= jp.subrange(a, a + parts[i].len()));
        } else {
            assert(j.subrange(a, a + parts[i].len()) =~= parts.last());
        }
    }
}

/// The separator stands between parts `i` and `i + 1` of the join.
proof fn lemma_join_sep(parts: Seq<Seq<char>>, sep: Seq<char>, i: int)
    requires
        0 <= i < parts.len() - 1,
    ensures
        join_spec(parts, sep).subrange(part_offset(parts, sep, i) + parts[i].len(), part_offset(parts, sep, i + 1))
            == sep,
    decreases parts.len(),
{
    let n = parts.len() as int;
    let j = join_spec(parts, sep);
    let prev = parts.drop_last();
    let jp = join_spec(prev, sep);
    lemma_join_len(prev, sep);
    lemma_part_offset_prefix(parts, sep, n - 2);
    lemma_part_offset_prefix(parts, sep, i);
    lemma_part_offset_prefix(parts, sep, i + 1);
    assert(prev[n - 2] == parts[n - 2]);
    assert(prev[i] == parts[i]);
    let a = part_offset(parts, sep, i) + parts[i].len();
    let b = part_offset(parts, sep, i + 1);
    lemma_part_offset_nonneg(parts, sep, i);
    assert(j == jp + sep + parts.last());
    if i < n - 2 {
        lemma_join_sep(prev, sep, i);
        lemma_part_offset_grows(prev, sep, i + 1, n - 2);
        assert(b <= jp.len());
        assert(j.subrange(a, b) =~= jp.subrange(a, b));
    } else {
        assert(j.subrange(a, b) =~= sep);
    }
}

/// Joining lays the parts out one after another with the separator between
/// each two: every part stands whole at its offset, the separator stands
/// between neighbours, and nothing else is there, so the length is that of
/// all parts plus one separator per gap.
pub proof fn law_join_layout(parts: Seq<Seq<char>>, sep: Seq<char>)
    ensures
        parts.len() == 0 ==> join_spec(parts, sep).len() == 0,
        parts.len() > 0 ==> join_spec(parts, sep).len() == part_offset(parts, sep, parts.len() - 1)
            + parts.last().len(),
        forall|i: int|
            0 <= i < parts.len() ==> join_spec(parts, sep).subrange(
                part_offset(parts, sep, i),
                part_offset(parts, sep, i) + parts[i].len(),
            ) == #[trigger] parts[i],
        forall|i: int|
            0 <= i < parts.len() - 1 ==> join_spec(parts, sep).subrange(
                part_offset(parts, sep, i) + (#[trigger] parts[i]).len(),
                part_offset(parts, sep, i + 1),
            ) == sep,
{
    lemma_join_len(parts, sep);
    assert forall|i: int| 0 <= i < parts.len() implies join_spec(parts, sep).subrange(
        part_offset(parts, sep, i),
        part_offset(parts, sep, i) + parts[i].len(),
    ) == #[trigger] parts[i] by {
        lemma_join_part(parts, sep, i);
    }
    assert forall|i: int| 0 <= i < parts.len() - 1 implies join_spec(parts, sep).subrange(
        part_offset(parts, sep, i) + (#[trigger] parts[i]).len(),
        part_offset(parts, sep, i + 1),
    ) == sep by {
        lemma_join_sep(parts, sep, i);
    }
}

} // verus!
