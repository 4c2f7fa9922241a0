//! The table of recognised delimiter pairs.
use vstd::prelude::*;

verus! {

/// The recognised delimiter pairs, as (open, close).
pub open spec fn pair_table() -> Seq<(char, char)> {
    seq![
        ('(', ')'),
        ('[', ']'),
        ('{', '}'),
        ('<', '>'),
        ('«', '»'),
        ('「', '」'),
        ('（', '）'),
    ]
}

/// The first entry of `table` from index `i` on that holds `ch`, or `(ch, ch)`.
pub open spec fn lookup_from(table: Seq<(char, char)>, ch: char, i: int) -> (char, char)
    decreases table.len() - i,
{
    if i < 0 || i >= table.len() {
        (ch, ch)
    } else if table[i].0 == ch || table[i].1 == ch {
        table[i]
    } else {
        lookup_from(table, ch, i + 1)
    }
}

/// The pair that `ch` belongs to: its table entry, or `(ch, ch)` when it has none.
pub open spec fn pair_of(ch: char) -> (char, char) {
    lookup_from(pair_table(), ch, 0)
}

fn pairs() -> (r: Vec<(char, char)>)
    ensures
        r@ == pair_table(),
{
    let r = vec![
        ('(', ')'),
        ('[', ']'),
        ('{', '}'),
        ('<', '>'),
        ('«', '»'),
        ('「', '」'),
        ('（', '）'),
    ];
    assert(r@ =~= pair_table());
    r
}

/// Given any char of the table, return its open and closing chars; for any
/// other char return `(ch, ch)`.
pub fn get_pair(ch: char) -> (r: (char, char))
    ensures
        r == pair_of(ch),
{
    let table = pairs();
    let mut i: usize = 0;
    while i < table.len()
        invariant
            table@ == pair_table(),
            0 <= i <= table@.len(),
            lookup_from(pair_table(), ch, i as int) == pair_of(ch),
        decreases table@.len() - i,
    {
        let (open, close) = table[i];
        if open == ch || close == ch {
            return (open, close);
        }
        i = i + 1;
    }
    (ch, ch)
}

/// Every entry of the table is the pair of both of its chars, and a char that no
/// entry holds pairs with itself.
pub proof fn lemma_get_pair_table(x: char)
    ensures
        forall|i: int|
            0 <= i < pair_table().len() ==> pair_of(#[trigger] pair_table()[i].0) == pair_table()[i]
                && pair_of(pair_table()[i].1) == pair_table()[i],
        (forall|i: int|
            0 <= i < pair_table().len() ==> #[trigger] pair_table()[i].0 != x && pair_table()[i].1
                != x) ==> pair_of(x) == (x, x),
{
    reveal_with_fuel(lookup_from, 8);
    assert forall|i: int| 0 <= i < pair_table().len() implies pair_of(
        #[trigger] pair_table()[i].0,
    ) == pair_table()[i] && pair_of(pair_table()[i].1) == pair_table()[i] by {
        assert(0 <= i < 7);
    }
    if forall|i: int|
        0 <= i < pair_table().len() ==> #[trigger] pair_table()[i].0 != x && pair_table()[i].1 != x {
        assert(pair_table()[0].0 != x && pair_table()[1].0 != x && pair_table()[2].0 != x);
        assert(pair_table()[3].0 != x && pair_table()[4].0 != x && pair_table()[5].0 != x);
        assert(pair_table()[6].0 != x);
    }
}

} // verus!
