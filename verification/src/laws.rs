use vstd::prelude::*;

use crate::explorer::{
    child_row, closed, consumed_from, forest_size, hit_at, layout_forest, layout_node, lemma_layout_len,
    lemma_layout_node_len, next_row, opened_with, tree_size, walk_forest, walk_node, ClickInput,
    NodeModel, Walked,
};
use crate::paths::entry_label;
use crate::strings::{lemma_boundary_within, lemma_encode_concat, lemma_encode_space};
use crate::text::{
    at_boundary, backspace, backspace_faults, enter, enter_faults, insert_at_cursor, lines_valid,
    move_down, move_left, move_right, move_up, on_line, tab_text, WindowModel,
};
use vstd::utf8::{decode_utf8, encode_utf8, is_char_boundary, is_continuation_byte, valid_utf8};

verus! {

broadcast use vstd::utf8::group_utf8_lib;

/// Backspace at the start of the line that Enter just opened joins it back: the text and the
/// cursor are as before the Enter, and neither step faults.
pub proof fn law_backspace_undoes_enter(m: WindowModel)
    requires
        lines_valid(m),
        at_boundary(m),
    ensures
        !enter_faults(m),
        !backspace_faults(enter(m).0),
        backspace(enter(m).0).0 == m,
{
    let line = m.lines[m.y];
    lemma_boundary_within(line, m.x);
    let e = enter(m).0;
    if line.len() > m.x {
        assert(e.lines[m.y] == line.take(m.x));
        assert(e.lines[m.y + 1] == line.skip(m.x));
        assert(line.take(m.x) + line.skip(m.x) =~= line);
    } else {
        assert(e.lines[m.y] == line);
        assert(e.lines[m.y + 1] == Seq::<u8>::empty());
        assert(line + Seq::<u8>::empty() =~= line);
    }
    assert(e.lines.remove(m.y + 1).update(m.y, e.lines[m.y] + e.lines[m.y + 1]) =~= m.lines);
}

/// Encoding one character below 128 takes one byte.
proof fn lemma_encode_ascii_len(c: char)
    requires
        (c as u32) < 128,
    ensures
        encode_utf8(seq![c]).len() == 1,
{
    assert(seq![c].drop_first() =~= Seq::<char>::empty());
    reveal_with_fuel(encode_utf8, 2);
}

/// Backspace right after typing one ASCII character other than a space never faults, and
/// gives back the text and the cursor as they were.
pub proof fn law_backspace_undoes_typing(m: WindowModel, c: char)
    requires
        lines_valid(m),
        at_boundary(m),
        (c as u32) < 128,
        c != ' ',
    ensures
        !backspace_faults(insert_at_cursor(m, encode_utf8(seq![c]))),
        backspace(insert_at_cursor(m, encode_utf8(seq![c]))).0 == m,
{
    let enc = encode_utf8(seq![c]);
    lemma_encode_ascii_len(c);
    let t = insert_at_cursor(m, enc);
    let line = m.lines[m.y];
    lemma_boundary_within(line, m.x);
    let nl = line.take(m.x) + enc + line.skip(m.x);
    assert(t.lines[m.y] == nl);
    assert(nl.len() == line.len() + 1);
    if m.x < line.len() {
        assert(valid_utf8(line.take(m.x)));
        assert(valid_utf8(line.subrange(m.x, line.len() as int)));
        assert(line.subrange(m.x, line.len() as int) == line.skip(m.x));
        assert(valid_utf8(enc));
        assert(valid_utf8(line.take(m.x) + enc));
        assert(valid_utf8(nl));
        assert(nl[m.x] == enc[0]);
        assert(nl[m.x + 1] == line[m.x]);
        assert(decode_utf8(enc) == seq![c]);
        assert(!is_continuation_byte(enc[0])) by {
            assert(is_char_boundary(enc, 0));
        }
        assert(is_char_boundary(nl, m.x));
        assert(is_char_boundary(nl, m.x + 1));
        assert(nl.subrange(m.x, m.x + 1) =~= enc);
        assert(nl.remove(m.x) =~= line);
        assert(t.lines.update(m.y, nl.remove(m.x)) =~= m.lines);
    } else {
        let cs = decode_utf8(line);
        assert(encode_utf8(cs) == line);
        assert(line.skip(m.x) =~= Seq::<u8>::empty());
        assert(nl =~= line + enc);
        lemma_encode_concat(cs, seq![c]);
        assert(decode_utf8(nl) == cs + seq![c]);
        assert((cs + seq![c]).drop_last() =~= cs);
        assert(t.lines.update(m.y, encode_utf8(cs)) =~= m.lines);
    }
}

/// Spaces encode as bytes 32, one each.
proof fn lemma_encode_spaces()
    ensures
        encode_utf8(seq![' ', ' ', ' ']) == seq![32u8, 32u8, 32u8],
        encode_utf8(seq![' ', ' ', ' ', ' ']) == tab_text(),
{
    lemma_encode_space();
    let sp = seq![' '];
    lemma_encode_concat(sp, sp);
    lemma_encode_concat(sp + sp, sp);
    lemma_encode_concat(sp + sp + sp, sp);
    assert(seq![' ', ' ', ' '] =~= sp + sp + sp);
    assert(seq![' ', ' ', ' ', ' '] =~= sp + sp + sp + sp);
    assert(encode_utf8(sp + sp + sp) =~= seq![32u8, 32u8, 32u8]);
    assert(encode_utf8(sp + sp + sp + sp) =~= tab_text());
}

/// Backspace right after a tab never faults and takes the cursor back to where the tab was
/// typed; three of the four spaces stay, after the cursor.
pub proof fn law_backspace_after_tab(m: WindowModel)
    requires
        lines_valid(m),
        at_boundary(m),
    ensures
        !backspace_faults(insert_at_cursor(m, tab_text())),
        backspace(insert_at_cursor(m, tab_text())).0.lines == insert_at_cursor(m, seq![32u8, 32u8, 32u8]).lines,
        backspace(insert_at_cursor(m, tab_text())).0.x == m.x,
        backspace(insert_at_cursor(m, tab_text())).0.y == m.y,
{
    lemma_encode_spaces();
    lemma_encode_space();
    let three_b = seq![32u8, 32u8, 32u8];
    let t = insert_at_cursor(m, tab_text());
    let line = m.lines[m.y];
    lemma_boundary_within(line, m.x);
    let tl = line.take(m.x) + tab_text() + line.skip(m.x);
    let three = line.take(m.x) + three_b + line.skip(m.x);
    assert(t.lines[m.y] == tl);
    if m.x < line.len() {
        assert(valid_utf8(tab_text()));
        assert(valid_utf8(three_b));
        assert(valid_utf8(line.take(m.x)));
        assert(line.subrange(m.x, line.len() as int) == line.skip(m.x));
        assert(valid_utf8(line.skip(m.x)));
        assert(valid_utf8(line.take(m.x) + tab_text()));
        assert(valid_utf8(tl));
        assert(valid_utf8(line.take(m.x) + three_b));
        assert(valid_utf8(three));
        assert(tl[m.x + 3] == 32u8);
        assert(tl[m.x + 4] == line[m.x]);
        assert(is_char_boundary(tl, m.x + 3));
        assert(is_char_boundary(tl, m.x + 4));
        assert(tl.subrange(m.x + 3, m.x + 4) =~= seq![32u8]);
        assert(decode_utf8(encode_utf8(seq![' '])) == seq![' ']);
        assert(tl.remove(m.x + 3) =~= three);
        assert(three[m.x] == 32u8);
        assert(is_char_boundary(three, m.x));
        assert(three[m.x + 1] == 32u8 && three[m.x + 2] == 32u8);
    } else {
        let cs = decode_utf8(line);
        assert(encode_utf8(cs) == line);
        assert(line.skip(m.x) =~= Seq::<u8>::empty());
        let c4 = cs + seq![' ', ' ', ' ', ' '];
        let c3 = cs + seq![' ', ' ', ' '];
        lemma_encode_concat(cs, seq![' ', ' ', ' ', ' ']);
        lemma_encode_concat(cs, seq![' ', ' ', ' ']);
        assert(tl =~= encode_utf8(c4));
        assert(c4.drop_last() =~= c3);
        assert(three =~= encode_utf8(c3));
        assert(decode_utf8(tl) == c4);
        assert(valid_utf8(three));
        assert(three[m.x] == 32u8);
        assert(is_char_boundary(three, m.x));
        assert(three[m.x + 1] == 32u8 && three[m.x + 2] == 32u8);
    }
}

/// A click that falls on one drawn row only, where a closed entry stands, asks for the listing
/// of that very entry when no listing is at hand (within one subtree).
pub proof fn law_click_on_closed_entry_asks_its_listing_node(
    inp: ClickInput,
    n: NodeModel,
    row: int,
    r: int,
    used: nat,
)
    requires
        hits_only(inp, r),
        0 <= row <= r < row + tree_size(n),
        used >= inp.listings.len(),
        !node_entry_at(n, row, r).opened,
    ensures
        walk_node(inp, n, row, false, used) == Walked::Need(node_entry_at(n, row, r).path),
    decreases n, 1nat,
{
    if r != row {
        assert(!inp.hits[row]);
        law_click_on_closed_entry_asks_its_listing_forest(inp, n.children, row + 1, r, used);
    }
}

/// A click that falls on one drawn row only, where a closed entry stands, asks for the listing
/// of that very entry when no listing is at hand.
pub proof fn law_click_on_closed_entry_asks_its_listing_forest(
    inp: ClickInput,
    ns: Seq<NodeModel>,
    row: int,
    r: int,
    used: nat,
)
    requires
        hits_only(inp, r),
        0 <= row <= r < row + forest_size(ns),
        used >= inp.listings.len(),
        !forest_entry_at(ns, row, r).opened,
    ensures
        walk_forest(inp, ns, row, false, used) == Walked::Need(forest_entry_at(ns, row, r).path),
    decreases ns, 0nat,
{
    let s0 = tree_size(ns[0]);
    if r < row + s0 {
        law_click_on_closed_entry_asks_its_listing_node(inp, ns[0], row, r, used);
    } else {
        law_missed_rows_keep_node(inp, ns[0], row, false, used);
        law_click_on_closed_entry_asks_its_listing_forest(inp, ns.drop_first(), row + s0, r, used);
    }
}

/// A first click on the row of a closed entry, before any listing is read, asks for the
/// listing of the entry drawn on that row.
pub proof fn law_first_click_asks_listing_of_clicked_entry(inp: ClickInput, ns: Seq<NodeModel>, r: int)
    requires
        hits_only(inp, r),
        r < forest_size(ns),
        inp.listings.len() == 0,
        !forest_entry_at(ns, 0, r).opened,
    ensures
        walk_forest(inp, ns, 0, false, 0) == Walked::Need(forest_entry_at(ns, 0, r).path),
{
    law_click_on_closed_entry_asks_its_listing_forest(inp, ns, 0, r, 0);
}

/// The single byte at `i`, with character boundaries on both sides, decodes to a space
/// exactly when it is byte 32.
proof fn lemma_one_byte_space(line: Seq<u8>, i: int)
    requires
        valid_utf8(line),
        0 <= i,
        i + 1 <= line.len(),
        is_char_boundary(line, i),
        is_char_boundary(line, i + 1),
    ensures
        (decode_utf8(line.subrange(i, i + 1))[0] == ' ') == (line[i] == 32u8),
{
    let s2 = line.subrange(i, line.len() as int);
    assert(valid_utf8(s2));
    if i + 1 < line.len() {
        assert(s2[1] == line[i + 1]);
        vstd::utf8::is_char_boundary_iff_not_is_continuation_byte(line, i + 1);
        vstd::utf8::is_char_boundary_iff_not_is_continuation_byte(s2, 1);
        assert(is_char_boundary(s2, 1));
    } else {
        assert(s2.len() == 1);
        assert(is_char_boundary(s2, s2.len() as int));
    }
    let sub = line.subrange(i, i + 1);
    assert(s2.subrange(0, 1) =~= sub);
    assert(valid_utf8(sub));
    let cs = decode_utf8(sub);
    assert(encode_utf8(cs) == sub);
    lemma_encode_space();
    if cs.len() == 0 {
        assert(encode_utf8(cs) =~= Seq::<u8>::empty());
    }
    assert(cs.len() > 0);
    lemma_encode_concat(seq![cs[0]], cs.drop_first());
    assert(seq![cs[0]] + cs.drop_first() =~= cs);
    if cs[0] == ' ' {
        assert(seq![cs[0]] =~= seq![' ']);
        assert(sub[0] == 32u8);
    }
    if line[i] == 32u8 {
        assert(sub =~= seq![32u8]);
        assert(decode_utf8(encode_utf8(seq![' '])) == seq![' ']);
    }
}

/// Backspace inside a line removes the byte before the cursor and moves the cursor back one
/// byte; four when the removed byte was a space and three spaces stand just before the new
/// cursor.
pub proof fn law_backspace_inside_line(m: WindowModel)
    requires
        lines_valid(m),
        on_line(m),
        1 <= m.x < m.lines[m.y].len(),
        !backspace_faults(m),
    ensures
        ({
            let line = m.lines[m.y];
            let nl = line.remove(m.x - 1);
            let r = backspace(m).0;
            &&& r.lines == m.lines.update(m.y, nl)
            &&& r.y == m.y
            &&& r.x == if line[m.x - 1] == 32u8 && m.x - 1 >= 3 && nl[m.x - 4] == 32u8
                && nl[m.x - 3] == 32u8 && nl[m.x - 2] == 32u8 {
                m.x - 4
            } else {
                m.x - 1
            }
        }),
{
    let line = m.lines[m.y];
    assert(valid_utf8(line));
    lemma_one_byte_space(line, m.x - 1);
}

/// Arrow up from a line below the first goes to the line above, keeping the column when that
/// line is long enough and standing at its end otherwise; the text does not change.
pub proof fn law_move_up_clamps(m: WindowModel)
    requires
        on_line(m),
        m.y > 0,
        0 <= m.x,
    ensures
        ({
            let r = move_up(m);
            let above = m.lines[m.y - 1].len();
            &&& r.lines == m.lines
            &&& r.y == m.y - 1
            &&& r.x <= m.x
            &&& r.x <= above
            &&& (r.x == m.x || r.x == above)
        }),
{
}

/// Arrow down from a line above the last goes to the line below, keeping the column when that
/// line is long enough and standing at its end otherwise; the text does not change.
pub proof fn law_move_down_clamps(m: WindowModel)
    requires
        on_line(m),
        m.y < m.lines.len() - 1,
        0 <= m.x,
    ensures
        ({
            let r = move_down(m);
            let below = m.lines[m.y + 1].len();
            &&& r.lines == m.lines
            &&& r.y == m.y + 1
            &&& r.x <= m.x
            &&& r.x <= below
            &&& (r.x == m.x || r.x == below)
        }),
{
}

/// Arrows up on the first line and down on the last change nothing.
pub proof fn law_vertical_moves_at_edges(m: WindowModel)
    requires
        on_line(m),
    ensures
        m.y == 0 ==> move_up(m) == m,
        m.y == m.lines.len() - 1 ==> move_down(m) == m,
{
}

/// Enter cuts the line at the cursor: the line keeps the bytes before the cursor, a new line
/// right below holds the rest, the other lines keep their places, and the cursor stands at
/// the start of the new line.
pub proof fn law_enter_cuts_line(m: WindowModel)
    requires
        on_line(m),
        0 <= m.x <= m.lines[m.y].len(),
    ensures
        ({
            let r = enter(m).0;
            let line = m.lines[m.y];
            &&& r.lines.len() == m.lines.len() + 1
            &&& r.lines[m.y] == line.take(m.x)
            &&& r.lines[m.y + 1] == line.skip(m.x)
            &&& forall|i: int| 0 <= i < m.y ==> r.lines[i] == m.lines[i]
            &&& forall|i: int| m.y < i < m.lines.len() ==> r.lines[i + 1] == m.lines[i]
            &&& r.x == 0
            &&& r.y == m.y + 1
        }),
{
    let line = m.lines[m.y];
    if line.len() <= m.x {
        assert(line.take(m.x) =~= line);
        assert(line.skip(m.x) =~= Seq::<u8>::empty());
    }
}

/// Backspace at the start of a line below the first joins it to the line above: the cursor
/// stands at the joint and the other lines keep their order.
pub proof fn law_backspace_joins_lines(m: WindowModel)
    requires
        on_line(m),
        m.x == 0,
        m.y > 0,
    ensures
        ({
            let r = backspace(m).0;
            &&& r.lines.len() == m.lines.len() - 1
            &&& r.lines[m.y - 1] == m.lines[m.y - 1] + m.lines[m.y]
            &&& forall|i: int| 0 <= i < m.y - 1 ==> r.lines[i] == m.lines[i]
            &&& forall|i: int| m.y < i < m.lines.len() ==> r.lines[i - 1] == m.lines[i]
            &&& r.x == m.lines[m.y - 1].len()
            &&& r.y == m.y - 1
        }),
{
}

/// Left then right gives back the cursor, away from the start of the line.
pub proof fn law_right_undoes_left(m: WindowModel)
    requires
        on_line(m),
        0 < m.x <= m.lines[m.y].len(),
    ensures
        move_right(move_left(m)) == m,
{
}

/// Right then left gives back the cursor, away from the end of the line.
pub proof fn law_left_undoes_right(m: WindowModel)
    requires
        on_line(m),
        0 <= m.x < m.lines[m.y].len(),
    ensures
        move_left(move_right(m)) == m,
{
}

/// The click falls on no entry, drawn or not.
pub open spec fn misses_all(inp: ClickInput) -> bool {
    &&& !inp.fresh_hit
    &&& forall|i: int| 0 <= i < inp.hits.len() ==> !#[trigger] inp.hits[i]
}

/// The click falls on none of the `size` entries drawn from row `row` on (or, for entries
/// never drawn, on none of them).
pub open spec fn misses_rows(inp: ClickInput, row: int, size: int, fresh: bool) -> bool {
    &&& !inp.fresh_hit
    &&& !fresh ==> forall|i: int| row <= i < row + size && 0 <= i < inp.hits.len() ==> !#[trigger] inp.hits[i]
}

/// A click that falls on none of an entry's rows leaves the entry as it is, opens no file and
/// reads no listing.
pub proof fn law_missed_rows_keep_node(inp: ClickInput, n: NodeModel, row: int, fresh: bool, used: nat)
    requires
        misses_rows(inp, row, tree_size(n) as int, fresh),
    ensures
        walk_node(inp, n, row, fresh, used) == Walked::Done(seq![n], None, used),
    decreases n, 1nat,
{
    law_missed_rows_keep_forest(inp, n.children, child_row(row, fresh), fresh, used);
    assert(NodeModel { children: n.children, ..n } == n);
}

/// A click that falls on none of the rows of a sequence of entries leaves them as they are,
/// opens no file and reads no listing.
pub proof fn law_missed_rows_keep_forest(
    inp: ClickInput,
    ns: Seq<NodeModel>,
    row: int,
    fresh: bool,
    used: nat,
)
    requires
        misses_rows(inp, row, forest_size(ns) as int, fresh),
    ensures
        walk_forest(inp, ns, row, fresh, used) == Walked::Done(ns, None, used),
    decreases ns, 0nat,
{
    if ns.len() > 0 {
        law_missed_rows_keep_node(inp, ns[0], row, fresh, used);
        law_missed_rows_keep_forest(inp, ns.drop_first(), next_row(row, ns[0], fresh), fresh, used);
        assert(seq![ns[0]] + ns.drop_first() =~= ns);
    } else {
        assert(ns =~= Seq::<NodeModel>::empty());
    }
}

/// A click that falls on no entry leaves the explorer as it is, opens no file and reads no
/// listing.
pub proof fn law_missed_click_keeps_explorer(inp: ClickInput, ns: Seq<NodeModel>)
    requires
        misses_all(inp),
    ensures
        walk_forest(inp, ns, 0, false, 0) == Walked::Done(ns, None, 0),
{
    law_missed_rows_keep_forest(inp, ns, 0, false, 0);
}

/// An entry as one click toggles it: an open entry closes, a closed one opens with `l`.
pub open spec fn toggled(n: NodeModel, l: Option<Seq<NodeModel>>) -> NodeModel {
    if n.opened {
        closed(n)
    } else {
        opened_with(n, l)
    }
}

/// The entry drawn on row `r` within the subtree of `n` drawn from row `row`.
pub open spec fn node_entry_at(n: NodeModel, row: int, r: int) -> NodeModel
    decreases n, 1nat,
{
    if r == row {
        n
    } else {
        forest_entry_at(n.children, row + 1, r)
    }
}

/// The entry drawn on row `r` within entries drawn from row `row`.
pub open spec fn forest_entry_at(ns: Seq<NodeModel>, row: int, r: int) -> NodeModel
    decreases ns, 0nat,
{
    if ns.len() == 0 {
        arbitrary()
    } else if r < row + tree_size(ns[0]) {
        node_entry_at(ns[0], row, r)
    } else {
        forest_entry_at(ns.drop_first(), row + tree_size(ns[0]), r)
    }
}

/// The subtree of `n` (drawn from row `row`) with the entry on row `r` toggled.
pub open spec fn node_toggle_at(n: NodeModel, row: int, r: int, l: Option<Seq<NodeModel>>) -> NodeModel
    decreases n, 1nat,
{
    if r == row {
        toggled(n, l)
    } else {
        NodeModel { children: forest_toggle_at(n.children, row + 1, r, l), ..n }
    }
}

/// Entries drawn from row `row` with the entry on row `r` toggled.
pub open spec fn forest_toggle_at(ns: Seq<NodeModel>, row: int, r: int, l: Option<Seq<NodeModel>>) -> Seq<NodeModel>
    decreases ns, 0nat,
{
    if ns.len() == 0 {
        ns
    } else if r < row + tree_size(ns[0]) {
        seq![node_toggle_at(ns[0], row, r, l)] + ns.drop_first()
    } else {
        seq![ns[0]] + forest_toggle_at(ns.drop_first(), row + tree_size(ns[0]), r, l)
    }
}

/// The click falls on the drawn row `r` and nowhere else.
pub open spec fn hits_only(inp: ClickInput, r: int) -> bool {
    &&& !inp.fresh_hit
    &&& 0 <= r < inp.hits.len()
    &&& inp.hits[r]
    &&& forall|i: int| 0 <= i < inp.hits.len() && i != r ==> !#[trigger] inp.hits[i]
}

/// What a click on row `r` alone does to an entry `e` on that row with `used` listings
/// consumed: the file it names and the listings consumed after it.
pub open spec fn toggle_outcome(e: NodeModel, inp: ClickInput, used: nat) -> (Option<Seq<char>>, nat) {
    if e.opened {
        (None, used)
    } else {
        (if inp.listings[used as int] is None { Some(e.path) } else { None }, used + 1)
    }
}

/// A click on the row of one entry of a subtree toggles that entry and nothing else.
pub proof fn law_click_toggles_node(inp: ClickInput, n: NodeModel, row: int, r: int, used: nat)
    requires
        hits_only(inp, r),
        row <= r < row + tree_size(n),
        used < inp.listings.len(),
    ensures
        walk_node(inp, n, row, false, used) == ({
            let o = toggle_outcome(node_entry_at(n, row, r), inp, used);
            Walked::Done(seq![node_toggle_at(n, row, r, inp.listings[used as int])], o.0, o.1)
        }),
    decreases n, 1nat,
{
    if r == row {
        if !n.opened {
            let m = opened_with(n, inp.listings[used as int]);
            law_missed_rows_keep_forest(inp, m.children, 0, true, used + 1);
            assert(NodeModel { children: m.children, ..m } == m);
        }
    } else {
        if 0 <= row {
            assert(!inp.hits[row]);
        }
        law_click_toggles_forest(inp, n.children, row + 1, r, used);
    }
}

/// A click on the row of one entry toggles that entry and nothing else: an open entry
/// closes; a closed entry opens with the next listing and, when that listing failed, is the
/// file the click opens.
pub proof fn law_click_toggles_forest(inp: ClickInput, ns: Seq<NodeModel>, row: int, r: int, used: nat)
    requires
        hits_only(inp, r),
        row <= r < row + forest_size(ns),
        used < inp.listings.len(),
    ensures
        walk_forest(inp, ns, row, false, used) == ({
            let o = toggle_outcome(forest_entry_at(ns, row, r), inp, used);
            Walked::Done(forest_toggle_at(ns, row, r, inp.listings[used as int]), o.0, o.1)
        }),
    decreases ns, 0nat,
{
    let l = inp.listings[used as int];
    let s0 = tree_size(ns[0]);
    if r < row + s0 {
        law_click_toggles_node(inp, ns[0], row, r, used);
        let o = toggle_outcome(node_entry_at(ns[0], row, r), inp, used);
        law_missed_rows_keep_forest(inp, ns.drop_first(), row + s0, false, o.1);
    } else {
        law_missed_rows_keep_node(inp, ns[0], row, false, used);
        law_click_toggles_forest(inp, ns.drop_first(), row + s0, r, used);
    }
}

/// The row drawn at position `r - row` of a subtree's rows shows the label of the entry that
/// a click on row `r` toggles.
pub proof fn law_row_shows_entry_node(n: NodeModel, row: int, r: int, depth: nat)
    requires
        row <= r < row + tree_size(n),
    ensures
        layout_node(n, depth)[r - row].1 == ({
            let e = node_entry_at(n, row, r);
            entry_label(e.path, e.is_dir)
        }),
    decreases n, 1nat,
{
    lemma_layout_len(n.children, depth + 1);
    if r != row {
        law_row_shows_entry_forest(n.children, row + 1, r, depth + 1);
        assert(layout_node(n, depth)[r - row] == layout_forest(n.children, depth + 1)[r - row - 1]);
    }
}

/// The explorer row drawn at position `r - row` shows the label of the entry that a click on
/// row `r` toggles: what is seen on a row is what a click there acts on.
pub proof fn law_row_shows_entry_forest(ns: Seq<NodeModel>, row: int, r: int, depth: nat)
    requires
        row <= r < row + forest_size(ns),
    ensures
        layout_forest(ns, depth)[r - row].1 == ({
            let e = forest_entry_at(ns, row, r);
            entry_label(e.path, e.is_dir)
        }),
    decreases ns, 0nat,
{
    let s0 = tree_size(ns[0]);
    lemma_layout_node_len(ns[0], depth);
    lemma_layout_len(ns.drop_first(), depth);
    if r < row + s0 {
        law_row_shows_entry_node(ns[0], row, r, depth);
    } else {
        law_row_shows_entry_forest(ns.drop_first(), row + s0, r, depth);
    }
}

/// No closed entry in the subtree holds children.
pub open spec fn node_tidy(n: NodeModel) -> bool
    decreases n, 1nat,
{
    &&& (!n.opened ==> n.children.len() == 0)
    &&& forest_tidy(n.children)
}

/// No closed entry in the subtrees holds children.
pub open spec fn forest_tidy(ns: Seq<NodeModel>) -> bool
    decreases ns, 0nat,
{
    ns.len() == 0 || (node_tidy(ns[0]) && forest_tidy(ns.drop_first()))
}

/// Every listing at hand holds entries whose closed entries hold no children (as fresh,
/// closed entries do).
pub open spec fn listings_tidy(inp: ClickInput) -> bool {
    forall|i: int| 0 <= i < inp.listings.len() ==> (#[trigger] inp.listings[i] matches Some(k) ==> forest_tidy(k))
}

proof fn lemma_tidy_cons(n: NodeModel, t: Seq<NodeModel>)
    ensures
        forest_tidy(seq![n] + t) == (node_tidy(n) && forest_tidy(t)),
{
    assert((seq![n] + t).drop_first() =~= t);
}

/// A click keeps closed entries without children, within one subtree.
pub proof fn law_click_keeps_closed_childless_node(inp: ClickInput, n: NodeModel, row: int, fresh: bool, used: nat)
    requires
        node_tidy(n),
        listings_tidy(inp),
    ensures
        walk_node(inp, n, row, fresh, used) matches Walked::Done(r, _, _) ==> forest_tidy(r),
    decreases inp.listings.len() - used, n,
{
    if hit_at(inp, row, fresh) {
        if n.opened {
            lemma_tidy_cons(closed(n), Seq::empty());
            assert(forest_tidy(Seq::<NodeModel>::empty()));
            assert(forest_tidy(closed(n).children)) by {
                assert(closed(n).children =~= Seq::<NodeModel>::empty());
            }
            assert(seq![closed(n)] + Seq::<NodeModel>::empty() =~= seq![closed(n)]);
        } else if used < inp.listings.len() {
            let l = inp.listings[used as int];
            let m = opened_with(n, l);
            assert(forest_tidy(m.children)) by {
                if l is None {
                    assert(m.children =~= Seq::<NodeModel>::empty());
                }
            }
            law_click_keeps_closed_childless_forest(inp, m.children, 0, true, used + 1);
            if let Walked::Done(k, f, u) = walk_forest(inp, m.children, 0, true, used + 1) {
                let r = NodeModel { children: k, ..m };
                lemma_tidy_cons(r, Seq::empty());
                assert(seq![r] + Seq::<NodeModel>::empty() =~= seq![r]);
            }
        }
    } else {
        law_click_keeps_closed_childless_forest(inp, n.children, child_row(row, fresh), fresh, used);
        if let Walked::Done(k, f, u) = walk_forest(inp, n.children, child_row(row, fresh), fresh, used) {
            let r = NodeModel { children: k, ..n };
            if !n.opened {
                assert(n.children =~= Seq::<NodeModel>::empty());
                assert(k =~= Seq::<NodeModel>::empty());
            }
            lemma_tidy_cons(r, Seq::empty());
            assert(seq![r] + Seq::<NodeModel>::empty() =~= seq![r]);
        }
    }
}

/// A click keeps closed entries without children: when no closed entry of the explorer holds
/// children and neither does any listing handed to the walk, the same holds of the explorer
/// after the click.
pub proof fn law_click_keeps_closed_childless_forest(
    inp: ClickInput,
    ns: Seq<NodeModel>,
    row: int,
    fresh: bool,
    used: nat,
)
    requires
        forest_tidy(ns),
        listings_tidy(inp),
    ensures
        walk_forest(inp, ns, row, fresh, used) matches Walked::Done(r, _, _) ==> forest_tidy(r),
    decreases inp.listings.len() - used, ns,
{
    if ns.len() > 0 {
        law_click_keeps_closed_childless_node(inp, ns[0], row, fresh, used);
        if let Walked::Done(h, f1, u1) = walk_node(inp, ns[0], row, fresh, used) {
            if consumed_from(inp, used, u1) {
                law_click_keeps_closed_childless_forest(inp, ns.drop_first(), next_row(row, ns[0], fresh), fresh, u1);
                if let Walked::Done(t, f2, u2) = walk_forest(inp, ns.drop_first(), next_row(row, ns[0], fresh), fresh, u1) {
                    lemma_walk_node_len(inp, ns[0], row, fresh, used);
                    lemma_tidy_cons(h[0], t);
                    assert(h =~= seq![h[0]]);
                }
            }
        }
    }
}

/// A walk at one entry gives back exactly one entry.
proof fn lemma_walk_node_len(inp: ClickInput, n: NodeModel, row: int, fresh: bool, used: nat)
    ensures
        walk_node(inp, n, row, fresh, used) matches Walked::Done(r, _, _) ==> r.len() == 1,
{
}

} // verus!
