//! The multi-cursor surround locator: one balanced pair per cursor, with no
//! offset shared between two cursors.
use crate::balanced::{find_balanced_pairs_pos, pair_at};
use crate::pair::pair_of;
use crate::selection::Selection;
use crate::text::slice_chars;
use ropey::RopeSlice;
use vstd::prelude::*;

verus! {

/// The flat offsets found for the cursors at `heads`, two per cursor in cursor
/// order, or `None` when a cursor has no pair or two cursors share an offset.
pub open spec fn surround(s: Seq<char>, open: char, close: char, heads: Seq<usize>) -> Option<Seq<usize>>
    decreases heads.len(),
{
    if heads.len() == 0 {
        Some(Seq::empty())
    } else {
        match surround(s, open, close, heads.drop_last()) {
            None => None,
            Some(acc) => match pair_at(s, open, close, heads.last() as int) {
                None => None,
                Some((o, c)) => if acc.contains(o) || acc.contains(c) {
                    None
                } else {
                    Some(acc.push(o).push(c))
                },
            },
        }
    }
}

fn holds(v: &Vec<usize>, x: usize) -> (r: bool)
    ensures
        r == v@.contains(x),
{
    let mut i: usize = 0;
    while i < v.len()
        invariant
            0 <= i <= v@.len(),
            forall|k: int| 0 <= k < i ==> v@[k] != x,
        decreases v@.len() - i,
    {
        if v[i] == x {
            return true;
        }
        i = i + 1;
    }
    false
}

/// Find the balanced pair of `ch` around every cursor of `selection`, as a flat
/// list of offsets, two per cursor; `None` when a cursor has no pair or when
/// two cursors' pairs share an offset.
pub fn get_surround_pos(text: RopeSlice<'_>, selection: &Selection, ch: char, _skip: usize) -> (r: Option<Vec<usize>>)
    requires
        forall|i: int|
            0 <= i < selection.heads().len() ==> #[trigger] selection.heads()[i] < slice_chars(text).len(),
    ensures
        match r {
            Some(v) => surround(slice_chars(text), pair_of(ch).0, pair_of(ch).1, selection.heads()) == Some(v@),
            None => surround(slice_chars(text), pair_of(ch).0, pair_of(ch).1, selection.heads()) is None,
        },
{
    let ghost s = slice_chars(text);
    let ghost heads = selection.heads();
    let ghost (open, close) = pair_of(ch);
    let mut change_pos: Vec<usize> = Vec::new();
    let mut i: usize = 0;
    assert(heads.take(0).len() == 0);
    while i < selection.ranges.len()
        invariant
            s == slice_chars(text),
            heads == selection.heads(),
            (open, close) == pair_of(ch),
            0 <= i <= heads.len(),
            forall|k: int| 0 <= k < heads.len() ==> #[trigger] heads[k] < s.len(),
            surround(s, open, close, heads.take(i as int)) == Some(change_pos@),
        decreases heads.len() - i,
    {
        let head = selection.ranges[i].head;
        assert(heads[i as int] == head);
        assert(heads.take(i + 1).drop_last() =~= heads.take(i as int));
        let (open_pos, close_pos) = match find_balanced_pairs_pos(text, ch, head) {
            Some(p) => p,
            None => {
                proof {
                    lemma_surround_none_extends(s, open, close, heads, i as int + 1);
                }
                return None;
            },
        };
        if holds(&change_pos, open_pos) || holds(&change_pos, close_pos) {
            proof {
                lemma_surround_none_extends(s, open, close, heads, i as int + 1);
            }
            return None;
        }
        change_pos.push(open_pos);
        change_pos.push(close_pos);
        i = i + 1;
    }
    assert(heads.take(i as int) =~= heads);
    Some(change_pos)
}

/// Once the cursors of a prefix fail, all of them do.
proof fn lemma_surround_none_extends(s: Seq<char>, open: char, close: char, heads: Seq<usize>, n: int)
    requires
        0 <= n <= heads.len(),
        surround(s, open, close, heads.take(n)) is None,
    ensures
        surround(s, open, close, heads) is None,
    decreases heads.len() - n,
{
    if n < heads.len() {
        assert(heads.take(n + 1).drop_last() =~= heads.take(n));
        lemma_surround_none_extends(s, open, close, heads, n + 1);
    } else {
        assert(heads.take(n) =~= heads);
    }
}

/// A successful result holds, for each cursor in order, the two offsets of its
/// pair, and no offset twice.
pub proof fn lemma_surround_some(s: Seq<char>, open: char, close: char, heads: Seq<usize>, acc: Seq<usize>)
    requires
        surround(s, open, close, heads) == Some(acc),
    ensures
        acc.len() == 2 * heads.len(),
        forall|i: int|
            0 <= i < heads.len() ==> pair_at(s, open, close, #[trigger] heads[i] as int) == Some(
                (acc[2 * i], acc[2 * i + 1]),
            ),
        forall|a: int, b: int| 0 <= a < b < acc.len() ==> acc[a] != acc[b],
    decreases heads.len(),
{
    if heads.len() > 0 {
        let prev = heads.drop_last();
        let acc0 = surround(s, open, close, prev)->Some_0;
        lemma_surround_some(s, open, close, prev, acc0);
        let (o, c) = pair_at(s, open, close, heads.last() as int)->Some_0;
        crate::balanced::lemma_round_trip_pair(s, open, close, heads.last() as int, o, c);
        assert(acc == acc0.push(o).push(c));
        assert forall|i: int| 0 <= i < heads.len() implies pair_at(s, open, close, #[trigger] heads[i] as int)
            == Some((acc[2 * i], acc[2 * i + 1])) by {
            if i < prev.len() {
                assert(heads[i] == prev[i]);
            }
        }
        assert forall|a: int, b: int| 0 <= a < b < acc.len() implies acc[a] != acc[b] by {
            if b >= acc0.len() && a < acc0.len() {
                assert(acc0.contains(acc0[a]));
            }
        }
    }
}

/// When a cursor has no pair, the whole batch has none.
pub proof fn lemma_surround_bails_on_missing(s: Seq<char>, open: char, close: char, heads: Seq<usize>, i: int)
    requires
        0 <= i < heads.len(),
        pair_at(s, open, close, heads[i] as int) is None,
    ensures
        surround(s, open, close, heads) is None,
{
    if surround(s, open, close, heads) is Some {
        lemma_surround_some(s, open, close, heads, surround(s, open, close, heads)->Some_0);
    }
}

/// When the pairs of two cursors share an offset, the whole batch has none.
pub proof fn lemma_surround_bails_on_overlap(
    s: Seq<char>,
    open: char,
    close: char,
    heads: Seq<usize>,
    i: int,
    j: int,
    p: (usize, usize),
    q: (usize, usize),
)
    requires
        0 <= i < j < heads.len(),
        pair_at(s, open, close, heads[i] as int) == Some(p),
        pair_at(s, open, close, heads[j] as int) == Some(q),
        p.0 == q.0 || p.0 == q.1 || p.1 == q.0 || p.1 == q.1,
    ensures
        surround(s, open, close, heads) is None,
{
    if surround(s, open, close, heads) is Some {
        let acc = surround(s, open, close, heads)->Some_0;
        lemma_surround_some(s, open, close, heads, acc);
        assert(pair_at(s, open, close, heads[i] as int) == Some((acc[2 * i], acc[2 * i + 1])));
        assert(pair_at(s, open, close, heads[j] as int) == Some((acc[2 * j], acc[2 * j + 1])));
    }
}

} // verus!
