//! Left-to-right substring search: first and nth non-overlapping occurrence
//! of a needle in a haystack, over character positions.

use vstd::prelude::*;

verus! {

/// The needle `nd` occurs in `hay` starting at character position `i`.
pub open spec fn match_at(hay: Seq<char>, nd: Seq<char>, i: int) -> bool {
    &&& 0 <= i
    &&& i + nd.len() <= hay.len()
    &&& hay.subrange(i, i + nd.len()) == nd
}

/// `hay` has some occurrence of `nd`.
pub open spec fn has_substring(hay: Seq<char>, nd: Seq<char>) -> bool {
    exists|i: int| match_at(hay, nd, i)
}

/// Position of the first occurrence of `nd` in `hay` at or after `off`,
/// scanning left to right; `None` when there is none.
pub open spec fn first_match_from(hay: Seq<char>, nd: Seq<char>, off: int) -> Option<int>
    decreases hay.len() + 1 - off,
{
    if off < 0 || off > hay.len() {
        None
    } else if match_at(hay, nd, off) {
        Some(off)
    } else if off == hay.len() {
        None
    } else {
        first_match_from(hay, nd, off + 1)
    }
}

/// Position of the nth (1-based) occurrence of `nd` in `hay`, counting
/// non-overlapping occurrences left to right starting at `off`.
pub open spec fn nth_match_from(hay: Seq<char>, nd: Seq<char>, n: int, off: int) -> Option<int>
    decreases n,
{
    match first_match_from(hay, nd, off) {
        None => None,
        Some(i) => if n <= 1 {
            Some(i)
        } else {
            nth_match_from(hay, nd, n - 1, i + nd.len() as int)
        },
    }
}

/// A first match reported at `i` really is a match, no earlier than `off`.
pub proof fn lemma_first_match_some(hay: Seq<char>, nd: Seq<char>, off: int, i: int)
    requires
        first_match_from(hay, nd, off) == Some(i),
    ensures
        off <= i,
        match_at(hay, nd, i),
    decreases hay.len() + 1 - off,
{
    if !(off < 0 || off > hay.len()) && !match_at(hay, nd, off) && off != hay.len() {
        lemma_first_match_some(hay, nd, off + 1, i);
    }
}

/// Past the last position where the needle could still fit, no match remains.
proof fn lemma_no_match_tail(hay: Seq<char>, nd: Seq<char>, off: int)
    requires
        0 <= off,
        off + nd.len() > hay.len(),
    ensures
        first_match_from(hay, nd, off) is None,
    decreases hay.len() + 1 - off,
{
    if off < hay.len() {
        lemma_no_match_tail(hay, nd, off + 1);
    }
}

/// An nth match reported at `i` really is a match, no earlier than `off`.
pub proof fn lemma_nth_match_some(hay: Seq<char>, nd: Seq<char>, n: int, off: int, i: int)
    requires
        nth_match_from(hay, nd, n, off) == Some(i),
    ensures
        off <= i,
        match_at(hay, nd, i),
    decreases n,
{
    let first = first_match_from(hay, nd, off);
    match first {
        None => {},
        Some(j) => {
            lemma_first_match_some(hay, nd, off, j);
            if n > 1 {
                lemma_nth_match_some(hay, nd, n - 1, j + nd.len() as int, i);
            }
        },
    }
}

/// Compare `nd` against `hay` at position `i`, character by character.
pub(crate) fn match_here(hay: &str, nd: &str, i: usize) -> (r: bool)
    requires
        i + nd@.len() <= hay@.len(),
    ensures
        r == match_at(hay@, nd@, i as int),
{
    let hlen = hay.unicode_len();
    let nlen = nd.unicode_len();
    let mut j: usize = 0;
    while j < nlen
        invariant
            j <= nlen,
            hlen == hay@.len(),
            nlen == nd@.len(),
            i + nlen <= hlen,
            forall|k: int| 0 <= k < j ==> hay@[i + k] == nd@[k],
        decreases nlen - j,
    {
        if hay.get_char(i + j) != nd.get_char(j) {
            assert(!match_at(hay@, nd@, i as int)) by {
                if match_at(hay@, nd@, i as int) {
                    assert(hay@.subrange(i as int, i + nd@.len())[j as int] == nd@[j as int]);
                }
            }
            return false;
        }
        j += 1;
    }
    assert(hay@.subrange(i as int, i + nd@.len()) =~= nd@);
    true
}

/// First occurrence of `nd` in `hay` at or after position `off`.
pub fn find_from(hay: &str, nd: &str, off: usize) -> (r: Option<usize>)
    requires
        off <= hay@.len(),
    ensures
        match r {
            Some(i) => first_match_from(hay@, nd@, off as int) == Some(i as int),
            None => first_match_from(hay@, nd@, off as int) is None,
        },
{
    let hlen = hay.unicode_len();
    let nlen = nd.unicode_len();
    let mut i: usize = off;
    loop
        invariant
            off <= i <= hlen,
            hlen == hay@.len(),
            nlen == nd@.len(),
            first_match_from(hay@, nd@, off as int) == first_match_from(hay@, nd@, i as int),
        decreases hlen - i,
    {
        if nlen > hlen - i {
            proof {
                lemma_no_match_tail(hay@, nd@, i as int);
            }
            return None;
        }
        if match_here(hay, nd, i) {
            return Some(i);
        }
        proof {
            assert(i < hlen) by {
                if i == hlen {
                    assert(hay@.subrange(i as int, i + nd@.len()) =~= nd@);
                }
            }
        }
        i += 1;
    }
}

/// Start of the nth (1-based) non-overlapping occurrence of `needle` in
/// `haystack`, scanning left to right from `offset`; `None` when fewer than
/// `n` occurrences start at or after `offset`.
pub fn find_nth_starting_from(haystack: &str, needle: &str, n: usize, offset: usize) -> (r: Option<
    usize,
>)
    requires
        1 <= n,
        offset <= haystack@.len(),
    ensures
        match r {
            Some(i) => nth_match_from(haystack@, needle@, n as int, offset as int) == Some(i as int),
            None => nth_match_from(haystack@, needle@, n as int, offset as int) is None,
        },
{
    let hlen = haystack.unicode_len();
    let nlen = needle.unicode_len();
    let mut k = n;
    let mut off = offset;
    loop
        invariant
            1 <= k <= n,
            off <= hlen,
            hlen == haystack@.len(),
            nlen == needle@.len(),
            nth_match_from(haystack@, needle@, n as int, offset as int) == nth_match_from(
                haystack@,
                needle@,
                k as int,
                off as int,
            ),
        decreases k,
    {
        match find_from(haystack, needle, off) {
            None => {
                return None;
            },
            Some(i) => {
                if k == 1 {
                    return Some(i);
                }
                proof {
                    lemma_first_match_some(haystack@, needle@, off as int, i as int);
                }
                k = k - 1;
                off = i + nlen;
            },
        }
    }
}

/// Start of the nth (1-based) non-overlapping occurrence of `needle` in
/// `haystack`, scanning the whole haystack left to right.
pub fn find_nth(haystack: &str, needle: &str, n: usize) -> (r: Option<usize>)
    requires
        1 <= n,
    ensures
        match r {
            Some(i) => nth_match_from(haystack@, needle@, n as int, 0) == Some(i as int),
            None => nth_match_from(haystack@, needle@, n as int, 0) is None,
        },
{
    find_nth_starting_from(haystack, needle, n, 0)
}

/// Offset at which correctable text begins when a leading front-matter
/// block, bounded by a pair of `delim` markers, is to be skipped: right
/// after the second occurrence of `delim`, or zero when no such pair exists.
pub fn front_matter_offset(text: &str, delim: &str) -> (r: usize)
    ensures
        match nth_match_from(text@, delim@, 2, 0) {
            Some(i) => r == i + delim@.len(),
            None => r == 0,
        },
        r <= text@.len(),
{
    let tlen = text.unicode_len();
    match find_nth(text, delim, 2) {
        None => 0,
        Some(i) => {
            proof {
                lemma_nth_match_some(text@, delim@, 2, 0, i as int);
            }
            let dlen = delim.unicode_len();
            i + dlen
        },
    }
}

} // verus!
