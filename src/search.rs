//! Directional search for the n-th occurrence of a char, and the pair locator
//! that counts raw occurrences of the delimiters rather than nesting.
use crate::pair::{get_pair, pair_of};
use crate::text::{char_at, len_chars, slice_chars};
use ropey::RopeSlice;
use vstd::prelude::*;

verus! {

/// The number of occurrences of `ch` in `s` within `[lo, hi)`.
pub open spec fn count(s: Seq<char>, ch: char, lo: int, hi: int) -> nat
    decreases hi - lo,
{
    if hi <= lo {
        0
    } else {
        count(s, ch, lo, hi - 1) + if s[hi - 1] == ch {
            1nat
        } else {
            0nat
        }
    }
}

/// `j` holds the `n`-th occurrence of `ch` at or after `start`.
pub open spec fn nth_next(s: Seq<char>, ch: char, start: int, n: nat, j: int) -> bool {
    start <= j < s.len() && s[j] == ch && count(s, ch, start, j) + 1 == n
}

/// `j` holds the `n`-th occurrence of `ch` before `end`, counting backward.
pub open spec fn nth_prev(s: Seq<char>, ch: char, end: int, n: nat, j: int) -> bool {
    0 <= j < end && s[j] == ch && count(s, ch, j + 1, end) + 1 == n
}

/// The count over `[lo, hi)` is the count over `[lo, mid)` plus that over `[mid, hi)`.
pub proof fn lemma_count_split(s: Seq<char>, ch: char, lo: int, mid: int, hi: int)
    requires
        lo <= mid <= hi,
    ensures
        count(s, ch, lo, hi) == count(s, ch, lo, mid) + count(s, ch, mid, hi),
    decreases hi - mid,
{
    if hi > mid {
        lemma_count_split(s, ch, lo, mid, hi - 1);
    }
}

/// Find the offset of the `n`-th occurrence of `ch` scanning forward from `pos`;
/// the char at `pos` counts only when `inclusive` holds.
pub fn find_nth_next(text: RopeSlice<'_>, ch: char, pos: usize, n: usize, inclusive: bool) -> (r: Option<usize>)
    requires
        pos < slice_chars(text).len(),
    ensures
        ({
            let s = slice_chars(text);
            let start = if inclusive { pos as int } else { pos + 1 };
            &&& r matches Some(j) ==> nth_next(s, ch, start, n as nat, j as int)
            &&& r is None <==> (n == 0 || count(s, ch, start, s.len() as int) < n)
        }),
{
    let ghost s = slice_chars(text);
    let len = len_chars(text);
    let start: usize = if inclusive { pos } else { pos + 1 };
    if n == 0 {
        return None;
    }
    let mut j: usize = start;
    let mut found: usize = 0;
    while j < len
        invariant
            s == slice_chars(text),
            s.len() == len,
            start <= j <= len,
            start == if inclusive { pos as int } else { pos + 1 },
            n > 0,
            found < n,
            found == count(s, ch, start as int, j as int),
        decreases len - j,
    {
        if char_at(text, j) == ch {
            if found + 1 == n {
                proof {
                    lemma_count_split(s, ch, start as int, j + 1, len as int);
                    assert(count(s, ch, start as int, j + 1) == n);
                }
                return Some(j);
            }
            found = found + 1;
        }
        j = j + 1;
    }
    None
}

/// Find the offset of the `n`-th occurrence of `ch` scanning backward from `pos`;
/// the char at `pos` counts only when `inclusive` holds.
pub fn find_nth_prev(text: RopeSlice<'_>, ch: char, pos: usize, n: usize, inclusive: bool) -> (r: Option<usize>)
    requires
        pos < slice_chars(text).len(),
    ensures
        ({
            let s = slice_chars(text);
            let end = if inclusive { pos + 1 } else { pos as int };
            &&& r matches Some(j) ==> nth_prev(s, ch, end, n as nat, j as int)
            &&& r is None <==> (n == 0 || count(s, ch, 0, end) < n)
        }),
{
    let ghost s = slice_chars(text);
    let len = len_chars(text);
    let end: usize = if inclusive { pos + 1 } else { pos };
    if n == 0 {
        return None;
    }
    let mut i: usize = end;
    let mut found: usize = 0;
    while i > 0
        invariant
            s == slice_chars(text),
            end <= s.len(),
            i <= end,
            end == if inclusive { pos + 1 } else { pos as int },
            n > 0,
            found < n,
            found == count(s, ch, i as int, end as int),
        decreases i,
    {
        proof {
            lemma_count_split(s, ch, i - 1, i as int, end as int);
            assert(count(s, ch, i - 1, i - 1) == 0);
        }
        if char_at(text, i - 1) == ch {
            if found + 1 == n {
                proof {
                    lemma_count_split(s, ch, 0, i - 1, end as int);
                    assert(count(s, ch, i - 1, end as int) == n);
                }
                return Some(i - 1);
            }
            found = found + 1;
        }
        i = i - 1;
    }
    None
}

/// Find the offsets of the `n`-th opening char of `ch`'s pair at or before `pos`
/// and of its `n`-th closing char at or after `pos`, counting raw occurrences:
/// `n` skips `n - 1` pairs outward.
pub fn find_nth_pairs_pos(text: RopeSlice<'_>, ch: char, pos: usize, n: usize) -> (r: Option<(usize, usize)>)
    requires
        pos < slice_chars(text).len(),
    ensures
        ({
            let s = slice_chars(text);
            let (open, close) = pair_of(ch);
            &&& r matches Some((o, c)) ==> nth_prev(s, open, pos + 1, n as nat, o as int) && nth_next(
                s,
                close,
                pos as int,
                n as nat,
                c as int,
            )
            &&& r is None <==> (n == 0 || count(s, open, 0, pos + 1) < n || count(
                s,
                close,
                pos as int,
                s.len() as int,
            ) < n)
        }),
{
    let (open, close) = get_pair(ch);
    let open_pos = match find_nth_prev(text, open, pos, n, true) {
        Some(o) => o,
        None => {
            return None;
        },
    };
    let close_pos = match find_nth_next(text, close, pos, n, true) {
        Some(c) => c,
        None => {
            return None;
        },
    };
    Some((open_pos, close_pos))
}

} // verus!
