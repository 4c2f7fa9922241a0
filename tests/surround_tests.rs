use ropey::Rope;
use surround::balanced::find_balanced_pairs_pos;
use surround::pair::get_pair;
use surround::search::{find_nth_next, find_nth_pairs_pos, find_nth_prev};
use surround::selection::{Range, Selection};
use surround::surround::get_surround_pos;

#[test]
fn test_find_nth_pairs_pos() {
    let doc = Rope::from("some (text) here");
    let slice = doc.slice(..);

    // cursor on [t]ext
    assert_eq!(find_nth_pairs_pos(slice, '(', 6, 1), Some((5, 10)));
    assert_eq!(find_nth_pairs_pos(slice, ')', 6, 1), Some((5, 10)));
    // cursor on so[m]e
    assert_eq!(find_nth_pairs_pos(slice, '(', 2, 1), None);
    // cursor on bracket itself
    assert_eq!(find_nth_pairs_pos(slice, '(', 5, 1), Some((5, 10)));
}

#[test]
fn test_find_balanced_pairs_pos() {
    let doc = Rope::from("some ((text) here)");
    let slice = doc.slice(..);

    // cursor on [t]ext
    assert_eq!(find_balanced_pairs_pos(slice, '(', 7), Some((6, 11)));
    assert_eq!(find_balanced_pairs_pos(slice, ')', 7), Some((6, 11)));
    // cursor on so[m]e
    assert_eq!(find_balanced_pairs_pos(slice, '(', 2), None);
    // cursor on bracket itself
    assert_eq!(find_balanced_pairs_pos(slice, '(', 6), Some((6, 11)));
    // cursor on outer parens
    assert_eq!(find_balanced_pairs_pos(slice, '(', 5), Some((5, 17)));

    let doc = Rope::from("some (text (here))");
    let slice = doc.slice(..);

    // cursor on outer parens
    assert_eq!(find_balanced_pairs_pos(slice, '(', 17), Some((5, 17)));
}

#[test]
fn test_find_nth_pairs_pos_skip() {
    let doc = Rope::from("(so (many (good) text) here)");
    let slice = doc.slice(..);

    // cursor on go[o]d
    assert_eq!(find_nth_pairs_pos(slice, '(', 13, 1), Some((10, 15)));
    assert_eq!(find_nth_pairs_pos(slice, '(', 13, 2), Some((4, 21)));
    assert_eq!(find_nth_pairs_pos(slice, '(', 13, 3), Some((0, 27)));
}

#[test]
fn test_find_nth_pairs_pos_mixed() {
    let doc = Rope::from("(so [many {good} text] here)");
    let slice = doc.slice(..);

    // cursor on go[o]d
    assert_eq!(find_nth_pairs_pos(slice, '{', 13, 1), Some((10, 15)));
    assert_eq!(find_nth_pairs_pos(slice, '[', 13, 1), Some((4, 21)));
    assert_eq!(find_nth_pairs_pos(slice, '(', 13, 1), Some((0, 27)));
}

#[test]
fn test_get_surround_pos() {
    let doc = Rope::from("(some) (chars)\n(newline)");
    let slice = doc.slice(..);
    let selection = Selection::new(vec![Range::point(2), Range::point(9), Range::point(20)], 0);

    // cursor on s[o]me, c[h]ars, newl[i]ne
    assert_eq!(
        get_surround_pos(slice, &selection, '(', 1).unwrap().as_slice(),
        &[0, 5, 7, 13, 15, 23]
    );
}

#[test]
fn test_get_surround_pos_bail() {
    let doc = Rope::from("[some]\n(chars)xx\n(newline)");
    let slice = doc.slice(..);

    let selection = Selection::new(vec![Range::point(2), Range::point(9)], 0);

    // cursor on s[o]me, c[h]ars
    assert_eq!(
        get_surround_pos(slice, &selection, '(', 1),
        None // different surround chars
    );

    let selection = Selection::new(vec![Range::point(14), Range::point(24)], 0);
    // cursor on [x]x, newli[n]e
    assert_eq!(
        get_surround_pos(slice, &selection, '(', 1),
        None // overlapping surround chars
    );
}

#[test]
fn get_pair_covers_table_and_fallback() {
    let table = [
        ('(', ')'),
        ('[', ']'),
        ('{', '}'),
        ('<', '>'),
        ('«', '»'),
        ('「', '」'),
        ('（', '）'),
    ];
    for (open, close) in table {
        assert_eq!(get_pair(open), (open, close));
        assert_eq!(get_pair(close), (open, close));
    }
    assert_eq!(get_pair('"'), ('"', '"'));
    assert_eq!(get_pair('x'), ('x', 'x'));
}

#[test]
fn balanced_innermost_of_nested_pairs() {
    let doc = Rope::from("a (b (c d) e (f)) g");
    let slice = doc.slice(..);
    // cursor on c
    assert_eq!(find_balanced_pairs_pos(slice, '(', 6), Some((5, 9)));
    // cursor on e, between two nested pairs
    assert_eq!(find_balanced_pairs_pos(slice, ')', 11), Some((2, 16)));
    // cursor on the closer of the inner pair
    assert_eq!(find_balanced_pairs_pos(slice, '(', 9), Some((5, 9)));
    // cursor on g, after every pair
    assert_eq!(find_balanced_pairs_pos(slice, '(', 18), None);
}

#[test]
fn balanced_mixed_delimiters_nest_independently() {
    let doc = Rope::from("(so [many {good} text] here)");
    let slice = doc.slice(..);
    assert_eq!(find_balanced_pairs_pos(slice, '{', 13), Some((10, 15)));
    assert_eq!(find_balanced_pairs_pos(slice, ']', 13), Some((4, 21)));
    assert_eq!(find_balanced_pairs_pos(slice, ')', 13), Some((0, 27)));
}

#[test]
fn balanced_unbalanced_text_has_no_pair() {
    let doc = Rope::from("((a) b");
    let slice = doc.slice(..);
    assert_eq!(find_balanced_pairs_pos(slice, '(', 5), None);
    let doc = Rope::from("x) y");
    let slice = doc.slice(..);
    assert_eq!(find_balanced_pairs_pos(slice, '(', 0), None);
}

#[test]
fn balanced_self_paired_quotes() {
    let doc = Rope::from("say \"hi there\" ok");
    let slice = doc.slice(..);
    assert_eq!(find_balanced_pairs_pos(slice, '"', 7), Some((4, 13)));
    assert_eq!(find_balanced_pairs_pos(slice, '"', 4), Some((4, 13)));
    assert_eq!(find_balanced_pairs_pos(slice, '"', 1), None);
}

#[test]
fn balanced_offsets_hold_the_pair_chars() {
    let text = "f(x, [y, {z}], (w))";
    let doc = Rope::from(text);
    let slice = doc.slice(..);
    let chars: Vec<char> = text.chars().collect();
    for ch in ['(', '[', '{', ')', ']', '}'] {
        for pos in 0..chars.len() {
            if let Some((o, c)) = find_balanced_pairs_pos(slice, ch, pos) {
                let (open, close) = get_pair(ch);
                assert!(o < c);
                assert!(o <= pos && pos <= c);
                assert_eq!(chars[o], open);
                assert_eq!(chars[c], close);
            }
        }
    }
}

#[test]
fn balanced_on_non_ascii_text() {
    let doc = Rope::from("é「ü」ö");
    let slice = doc.slice(..);
    assert_eq!(find_balanced_pairs_pos(slice, '」', 2), Some((1, 3)));
}

#[test]
fn nth_pairs_beyond_nesting_depth() {
    let doc = Rope::from("(so (many (good) text) here)");
    let slice = doc.slice(..);
    assert_eq!(find_nth_pairs_pos(slice, '(', 13, 4), None);
    assert_eq!(find_nth_pairs_pos(slice, '(', 13, 0), None);
}

#[test]
fn nth_pairs_count_raw_occurrences() {
    // the opener of the inner pair counts although it is already closed
    let doc = Rope::from("(a (b) c)");
    let slice = doc.slice(..);
    assert_eq!(find_nth_pairs_pos(slice, '(', 7, 1), Some((3, 8)));
}

#[test]
fn nth_next_and_prev_directions() {
    let doc = Rope::from("a,b,c,d");
    let slice = doc.slice(..);
    assert_eq!(find_nth_next(slice, ',', 1, 1, true), Some(1));
    assert_eq!(find_nth_next(slice, ',', 1, 1, false), Some(3));
    assert_eq!(find_nth_next(slice, ',', 0, 3, true), Some(5));
    assert_eq!(find_nth_next(slice, ',', 0, 4, true), None);
    assert_eq!(find_nth_next(slice, ',', 6, 1, false), None);
    assert_eq!(find_nth_prev(slice, ',', 5, 1, true), Some(5));
    assert_eq!(find_nth_prev(slice, ',', 5, 1, false), Some(3));
    assert_eq!(find_nth_prev(slice, ',', 6, 3, true), Some(1));
    assert_eq!(find_nth_prev(slice, ',', 6, 4, true), None);
    assert_eq!(find_nth_prev(slice, ',', 0, 1, false), None);
    assert_eq!(find_nth_prev(slice, ',', 3, 0, true), None);
}

#[test]
fn surround_bails_when_a_cursor_has_no_pair() {
    let doc = Rope::from("(a) b (c)");
    let slice = doc.slice(..);
    let selection = Selection::new(vec![Range::point(1), Range::point(4), Range::point(7)], 0);
    assert_eq!(get_surround_pos(slice, &selection, '(', 1), None);
}

#[test]
fn surround_bails_when_two_cursors_share_a_pair() {
    let doc = Rope::from("(ab)");
    let slice = doc.slice(..);
    let selection = Selection::new(vec![Range::point(1), Range::point(2)], 0);
    assert_eq!(get_surround_pos(slice, &selection, ')', 1), None);
}

#[test]
fn surround_single_cursor_and_nested_cursors() {
    let doc = Rope::from("[a [b] c]");
    let slice = doc.slice(..);
    let selection = Selection::new(vec![Range::new(0, 4)], 0);
    assert_eq!(get_surround_pos(slice, &selection, '[', 0), Some(vec![3, 5]));
    let selection = Selection::new(vec![Range::point(4), Range::point(7)], 1);
    assert_eq!(get_surround_pos(slice, &selection, ']', 0), Some(vec![3, 5, 0, 8]));
}

#[test]
fn selection_keeps_ranges_in_order() {
    let selection = Selection::new(vec![Range::new(3, 1), Range::point(5)], 1);
    assert_eq!(selection.ranges, vec![Range { anchor: 3, head: 1 }, Range { anchor: 5, head: 5 }]);
    assert_eq!(selection.primary_index, 1);
}
