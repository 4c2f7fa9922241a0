//! The balanced pair locator: the innermost pair of a delimiter that encloses a
//! cursor, counting nested pairs of the same delimiter.
use crate::pair::{get_pair, pair_of};
use crate::text::{char_at, len_chars, slice_chars};
use ropey::RopeSlice;
use vstd::prelude::*;

verus! {

/// What a char adds to the nesting depth: an opener one, a closer minus one.
/// When the two delimiters are the same char, `open_first` decides which role it plays.
pub open spec fn weight(open: char, close: char, open_first: bool, c: char) -> int {
    if c == open && c == close {
        if open_first {
            1
        } else {
            -1
        }
    } else if c == open {
        1
    } else if c == close {
        -1
    } else {
        0
    }
}

/// The sum of the weights of the chars of `s` in `[lo, hi)`.
pub open spec fn depth(s: Seq<char>, open: char, close: char, open_first: bool, lo: int, hi: int) -> int
    decreases hi - lo,
{
    if hi <= lo {
        0
    } else {
        depth(s, open, close, open_first, lo, hi - 1) + weight(open, close, open_first, s[hi - 1])
    }
}

/// `o` is the opening offset found for a cursor at `pos`: `pos` itself when it holds
/// the opener, else the nearest opener before `pos` that nothing between it and
/// `pos` leaves open.
pub open spec fn opener(s: Seq<char>, open: char, close: char, pos: int, o: int) -> bool {
    if s[pos] == open {
        o == pos
    } else {
        &&& 0 <= o < pos
        &&& s[o] == open
        &&& depth(s, open, close, true, o + 1, pos) == 0
        &&& forall|k: int| o < k <= pos ==> #[trigger] depth(s, open, close, true, k, pos) <= 0
    }
}

/// `c` is the closer that matches an opener at `o`: the first closer after `o`
/// at which the depth counted from `o` falls back to zero.
pub open spec fn closes(s: Seq<char>, open: char, close: char, o: int, c: int) -> bool {
    &&& 0 <= o < c < s.len()
    &&& s[c] == close
    &&& depth(s, open, close, false, o + 1, c) == 0
    &&& forall|k: int| o + 1 <= k <= c ==> #[trigger] depth(s, open, close, false, o + 1, k) >= 0
}

/// `(o, c)` is the span found for a cursor at `pos`.
pub open spec fn spans(s: Seq<char>, open: char, close: char, pos: int, o: int, c: int) -> bool {
    opener(s, open, close, pos, o) && closes(s, open, close, o, c)
}

/// `(o, c)` is a matched pair: an opener at `o` and its matching closer at `c`.
pub open spec fn matched(s: Seq<char>, open: char, close: char, o: int, c: int) -> bool {
    0 <= o && o < s.len() && s[o] == open && closes(s, open, close, o, c)
}

/// The span found for a cursor at `pos`, if any.
pub open spec fn pair_at(s: Seq<char>, open: char, close: char, pos: int) -> Option<(usize, usize)> {
    if exists|o: usize, c: usize| spans(s, open, close, pos, o as int, c as int) {
        let (o, c) = choose|o: usize, c: usize| spans(s, open, close, pos, o as int, c as int);
        Some((o, c))
    } else {
        None
    }
}

/// The depth over `[lo, hi)` is the depth over `[lo, mid)` plus that over `[mid, hi)`.
pub proof fn lemma_depth_split(s: Seq<char>, open: char, close: char, f: bool, lo: int, mid: int, hi: int)
    requires
        lo <= mid <= hi,
    ensures
        depth(s, open, close, f, lo, hi) == depth(s, open, close, f, lo, mid) + depth(s, open, close, f, mid, hi),
    decreases hi - mid,
{
    if hi > mid {
        lemma_depth_split(s, open, close, f, lo, mid, hi - 1);
    }
}

/// Adding the char at `lo - 1` in front of a range adds its weight.
pub proof fn lemma_depth_front(s: Seq<char>, open: char, close: char, f: bool, lo: int, hi: int)
    requires
        0 < lo <= hi,
    ensures
        depth(s, open, close, f, lo - 1, hi) == weight(open, close, f, s[lo - 1]) + depth(s, open, close, f, lo, hi),
{
    lemma_depth_split(s, open, close, f, lo - 1, lo, hi);
    assert(depth(s, open, close, f, lo - 1, lo - 1) == 0);
}

/// Only one offset is an opener for a cursor.
pub proof fn lemma_opener_unique(s: Seq<char>, open: char, close: char, pos: int, o1: int, o2: int)
    requires
        0 <= pos < s.len(),
        opener(s, open, close, pos, o1),
        opener(s, open, close, pos, o2),
    ensures
        o1 == o2,
{
    if s[pos] != open {
        if o1 < o2 {
            lemma_depth_front(s, open, close, true, o2 + 1, pos);
            assert(depth(s, open, close, true, o2, pos) <= 0);
        } else if o2 < o1 {
            lemma_depth_front(s, open, close, true, o1 + 1, pos);
            assert(depth(s, open, close, true, o1, pos) <= 0);
        }
    }
}

/// Only one offset closes an opener.
pub proof fn lemma_closes_unique(s: Seq<char>, open: char, close: char, o: int, c1: int, c2: int)
    requires
        closes(s, open, close, o, c1),
        closes(s, open, close, o, c2),
    ensures
        c1 == c2,
{
    if c1 < c2 {
        assert(depth(s, open, close, false, o + 1, c1 + 1) >= 0);
    } else if c2 < c1 {
        assert(depth(s, open, close, false, o + 1, c2 + 1) >= 0);
    }
}

/// A span found for a cursor is what `pair_at` gives for it.
pub proof fn lemma_pair_at(s: Seq<char>, open: char, close: char, pos: int, o: usize, c: usize)
    requires
        0 <= pos < s.len(),
        spans(s, open, close, pos, o as int, c as int),
    ensures
        pair_at(s, open, close, pos) == Some((o, c)),
{
    let (o2, c2) = choose|o2: usize, c2: usize| spans(s, open, close, pos, o2 as int, c2 as int);
    lemma_opener_unique(s, open, close, pos, o as int, o2 as int);
    lemma_closes_unique(s, open, close, o as int, c as int, c2 as int);
}

/// For two distinct delimiters the depth does not depend on which role is tried first.
pub proof fn lemma_depth_roles(s: Seq<char>, open: char, close: char, lo: int, hi: int)
    requires
        open != close,
    ensures
        depth(s, open, close, true, lo, hi) == depth(s, open, close, false, lo, hi),
    decreases hi - lo,
{
    if hi > lo {
        lemma_depth_roles(s, open, close, lo, hi - 1);
    }
}

proof fn lemma_depth_roles_all(s: Seq<char>, open: char, close: char)
    requires
        open != close,
    ensures
        forall|lo: int, hi: int| #[trigger]
            depth(s, open, close, true, lo, hi) == depth(s, open, close, false, lo, hi),
{
    assert forall|lo: int, hi: int| #[trigger]
        depth(s, open, close, true, lo, hi) == depth(s, open, close, false, lo, hi) by {
        lemma_depth_roles(s, open, close, lo, hi);
    }
}

/// Scanning forward from `p`, where the depth counted from `k + 1` has not yet gone
/// below zero, to `hi`, where it has, meets the closer that matches `k`.
proof fn lemma_find_close(s: Seq<char>, open: char, close: char, k: int, p: int, hi: int)
    requires
        0 <= k,
        k + 1 <= p <= hi <= s.len(),
        forall|q: int| k + 1 <= q <= p ==> #[trigger] depth(s, open, close, false, k + 1, q) >= 0,
        depth(s, open, close, false, k + 1, hi) < 0,
    ensures
        exists|c: int| p <= c < hi && closes(s, open, close, k, c),
    decreases hi - p,
{
    assert(depth(s, open, close, false, k + 1, p) >= 0);
    if depth(s, open, close, false, k + 1, p + 1) < 0 {
        assert(closes(s, open, close, k, p));
    } else {
        lemma_find_close(s, open, close, k, p + 1, hi);
    }
}

/// Where the depth counted back from `hi` reaches one at `lo`, some offset at or
/// after `lo` is the nearest one at which it does.
proof fn lemma_nearest_opener(s: Seq<char>, open: char, close: char, lo: int, hi: int)
    requires
        0 <= lo <= hi <= s.len(),
        depth(s, open, close, true, lo, hi) >= 1,
    ensures
        exists|k: int|
            lo <= k < hi && depth(s, open, close, true, k, hi) == 1 && forall|x: int|
                k < x <= hi ==> #[trigger] depth(s, open, close, true, x, hi) <= 0,
    decreases hi - lo,
{
    if exists|x: int| lo < x <= hi && #[trigger] depth(s, open, close, true, x, hi) >= 1 {
        let x = choose|x: int| lo < x <= hi && #[trigger] depth(s, open, close, true, x, hi) >= 1;
        lemma_nearest_opener(s, open, close, x, hi);
    } else {
        if lo == hi {
            assert(depth(s, open, close, true, lo, hi) == 0);
        }
        lemma_depth_front(s, open, close, true, lo + 1, hi);
        assert(depth(s, open, close, true, lo + 1, hi) <= 0);
    }
}

/// A cursor on or between the delimiters of a matched pair, and in no other matched
/// pair nested in it, is given that pair: the innermost enclosing one.
pub proof fn lemma_innermost_pair(s: Seq<char>, open: char, close: char, pos: int, o: usize, c: usize)
    requires
        open != close,
        0 <= pos < s.len(),
        matched(s, open, close, o as int, c as int),
        o <= pos <= c,
        forall|o2: int, c2: int|
            #![trigger matched(s, open, close, o2, c2)]
            matched(s, open, close, o2, c2) && o <= o2 <= pos <= c2 <= c ==> o2 == o && c2 == c,
    ensures
        spans(s, open, close, pos, o as int, c as int),
        pair_at(s, open, close, pos) == Some((o, c)),
{
    let o = o as int;
    let c = c as int;
    lemma_depth_roles_all(s, open, close);
    if s[pos] == open {
        if pos > o {
            lemma_depth_split(s, open, close, false, o + 1, pos + 1, c);
            assert(depth(s, open, close, false, o + 1, pos) >= 0);
            assert(depth(s, open, close, false, pos + 1, pos + 1) == 0);
            lemma_find_close(s, open, close, pos, pos + 1, c);
            let c2 = choose|c2: int| pos + 1 <= c2 < c && closes(s, open, close, pos, c2);
            assert(matched(s, open, close, pos, c2));
        }
    } else {
        assert forall|k: int| o < k <= pos implies #[trigger] depth(s, open, close, true, k, pos) <= 0 by {
            if depth(s, open, close, true, k, pos) >= 1 {
                lemma_nearest_opener(s, open, close, k, pos);
                let k2 = choose|k2: int|
                    k <= k2 < pos && depth(s, open, close, true, k2, pos) == 1 && forall|x: int|
                        k2 < x <= pos ==> #[trigger] depth(s, open, close, true, x, pos) <= 0;
                lemma_depth_front(s, open, close, true, k2 + 1, pos);
                assert(depth(s, open, close, true, k2 + 1, pos) <= 0);
                assert forall|q: int| k2 + 1 <= q <= pos implies #[trigger] depth(
                    s,
                    open,
                    close,
                    false,
                    k2 + 1,
                    q,
                ) >= 0 by {
                    lemma_depth_split(s, open, close, false, k2 + 1, q, pos);
                    assert(depth(s, open, close, true, q, pos) <= 0);
                }
                lemma_depth_split(s, open, close, false, o + 1, k2 + 1, c);
                assert(depth(s, open, close, false, o + 1, k2) >= 0);
                lemma_find_close(s, open, close, k2, pos, c);
                let c2 = choose|c2: int| pos <= c2 < c && closes(s, open, close, k2, c2);
                assert(matched(s, open, close, k2, c2));
            }
        }
        assert(depth(s, open, close, true, o + 1, pos) <= 0);
        assert(depth(s, open, close, false, o + 1, pos) >= 0);
    }
    assert(spans(s, open, close, pos, o, c));
    lemma_pair_at(s, open, close, pos, o as usize, c as usize);
}

/// The span found for a cursor is a matched pair that holds the cursor.
pub proof fn lemma_span_is_matched(s: Seq<char>, open: char, close: char, pos: int, o: int, c: int)
    requires
        open != close,
        0 <= pos < s.len(),
        spans(s, open, close, pos, o, c),
    ensures
        matched(s, open, close, o, c),
        o <= pos <= c,
{
    if o < pos && c < pos {
        lemma_depth_roles_all(s, open, close);
        lemma_depth_split(s, open, close, false, o + 1, c + 1, pos);
        assert(depth(s, open, close, true, c + 1, pos) <= 0);
    }
}

/// A cursor that no matched pair holds is given no pair.
pub proof fn lemma_outside_any_pair(s: Seq<char>, open: char, close: char, pos: int)
    requires
        open != close,
        0 <= pos < s.len(),
        forall|o: int, c: int| #[trigger] matched(s, open, close, o, c) ==> !(o <= pos <= c),
    ensures
        pair_at(s, open, close, pos) is None,
{
    if exists|o: usize, c: usize| spans(s, open, close, pos, o as int, c as int) {
        let (o, c) = choose|o: usize, c: usize| spans(s, open, close, pos, o as int, c as int);
        lemma_span_is_matched(s, open, close, pos, o as int, c as int);
    }
}

/// A cursor with no opening char at or before it is given no pair, whatever the
/// delimiters.
pub proof fn lemma_no_opener_before(s: Seq<char>, open: char, close: char, pos: int)
    requires
        0 <= pos < s.len(),
        forall|k: int| 0 <= k <= pos ==> s[k] != open,
    ensures
        pair_at(s, open, close, pos) is None,
{
}

/// The offsets found for a cursor hold the open and the close char, in order.
pub proof fn lemma_round_trip_pair(s: Seq<char>, open: char, close: char, pos: int, o: usize, c: usize)
    requires
        pair_at(s, open, close, pos) == Some((o, c)),
    ensures
        o < c < s.len(),
        s[o as int] == open,
        s[c as int] == close,
{
    assert(spans(s, open, close, pos, o as int, c as int));
}

/// The offsets found for `ch` hold exactly the open and the close char of its pair.
pub proof fn lemma_round_trip(s: Seq<char>, ch: char, pos: int, o: usize, c: usize)
    requires
        pair_at(s, pair_of(ch).0, pair_of(ch).1, pos) == Some((o, c)),
    ensures
        o < c < s.len(),
        s[o as int] == pair_of(ch).0,
        s[c as int] == pair_of(ch).1,
{
    lemma_round_trip_pair(s, pair_of(ch).0, pair_of(ch).1, pos, o, c);
}

/// The opening offset for a cursor at `pos`, if there is one.
fn find_open_pos(text: RopeSlice<'_>, open: char, close: char, pos: usize) -> (r: Option<usize>)
    requires
        pos < slice_chars(text).len(),
    ensures
        r matches Some(o) ==> opener(slice_chars(text), open, close, pos as int, o as int),
        r is None ==> forall|o: int| !opener(slice_chars(text), open, close, pos as int, o),
{
    let ghost s = slice_chars(text);
    if char_at(text, pos) == open {
        return Some(pos);
    }
    let mut i: usize = pos;
    let mut skip: usize = 0;
    while i > 0
        invariant
            s == slice_chars(text),
            pos < s.len(),
            s[pos as int] != open,
            0 <= i <= pos,
            skip <= pos - i,
            skip as int == -depth(s, open, close, true, i as int, pos as int),
            forall|k: int| i <= k <= pos ==> #[trigger] depth(s, open, close, true, k, pos as int) <= 0,
        decreases i,
    {
        proof {
            lemma_depth_front(s, open, close, true, i as int, pos as int);
        }
        let c = char_at(text, i - 1);
        if c == open {
            if skip == 0 {
                return Some(i - 1);
            }
            skip = skip - 1;
        } else if c == close {
            skip = skip + 1;
        }
        i = i - 1;
    }
    proof {
        assert forall|o: int| !opener(s, open, close, pos as int, o) by {
            if opener(s, open, close, pos as int, o) {
                lemma_depth_front(s, open, close, true, o + 1, pos as int);
                assert(depth(s, open, close, true, o, pos as int) <= 0);
            }
        }
    }
    None
}

/// The offset of the closer that matches the opener at `o`, if there is one.
fn find_close_pos(text: RopeSlice<'_>, open: char, close: char, o: usize) -> (r: Option<usize>)
    requires
        o < slice_chars(text).len(),
    ensures
        r matches Some(c) ==> closes(slice_chars(text), open, close, o as int, c as int),
        r is None ==> forall|c: int| !closes(slice_chars(text), open, close, o as int, c),
{
    let ghost s = slice_chars(text);
    let len = len_chars(text);
    let mut j: usize = o + 1;
    let mut count: usize = 1;
    while j < len
        invariant
            s == slice_chars(text),
            s.len() == len,
            o < j <= len,
            1 <= count <= j - o,
            count as int == 1 + depth(s, open, close, false, o + 1, j as int),
            forall|k: int| o + 1 <= k <= j ==> #[trigger] depth(s, open, close, false, o + 1, k) >= 0,
        decreases len - j,
    {
        let c = char_at(text, j);
        if c == close {
            if count == 1 {
                return Some(j);
            }
            count = count - 1;
        } else if c == open {
            count = count + 1;
        }
        j = j + 1;
    }
    proof {
        assert forall|c: int| !closes(s, open, close, o as int, c) by {
            if closes(s, open, close, o as int, c) {
                assert(depth(s, open, close, false, o + 1, c + 1) >= 0);
            }
        }
    }
    None
}

/// Find the offsets of the balanced pair of `ch`, which may be either its opening
/// or its closing char, that encloses `pos`.
pub fn find_balanced_pairs_pos(text: RopeSlice<'_>, ch: char, pos: usize) -> (r: Option<(usize, usize)>)
    requires
        pos < slice_chars(text).len(),
    ensures
        r == pair_at(slice_chars(text), pair_of(ch).0, pair_of(ch).1, pos as int),
        r matches Some((o, c)) ==> spans(slice_chars(text), pair_of(ch).0, pair_of(ch).1, pos as int, o as int, c as int),
        r is None <==> !exists|o: int, c: int| spans(slice_chars(text), pair_of(ch).0, pair_of(ch).1, pos as int, o, c),
{
    let ghost s = slice_chars(text);
    let (open, close) = get_pair(ch);
    let open_pos = match find_open_pos(text, open, close, pos) {
        Some(o) => o,
        None => {
            return None;
        },
    };
    match find_close_pos(text, open, close, open_pos) {
        Some(close_pos) => {
            proof {
                lemma_pair_at(s, open, close, pos as int, open_pos, close_pos);
            }
            Some((open_pos, close_pos))
        },
        None => {
            proof {
                assert forall|o: int, c: int| !spans(s, open, close, pos as int, o, c) by {
                    if spans(s, open, close, pos as int, o, c) {
                        lemma_opener_unique(s, open, close, pos as int, o, open_pos as int);
                    }
                }
            }
            None
        },
    }
}

} // verus!