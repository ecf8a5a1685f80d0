use vstd::prelude::*;

use crate::editor::{frame_update, key_step};
use crate::keys::{
    key_down, typed_chars, KeyState, SCAN_BACKSPACE, SCAN_DOWN, SCAN_ENTER, SCAN_LEFT, SCAN_RIGHT,
    SCAN_TAB, SCAN_UP,
};
use crate::text::{on_line, WindowModel};

verus! {

/// Two keyboard states in which the same keys act and shift is the same.
pub open spec fn same_acting_keys(k1: &KeyState, k2: &KeyState) -> bool {
    &&& k1.shift == k2.shift
    &&& forall|d: u32| key_down(k1, d) == key_down(k2, d)
}

/// The characters typed in a frame depend on the keyboard only through which keys act and
/// whether shift is held: a key acting by repeat types what a fresh press types, shifted
/// under shift.
pub proof fn law_typed_chars_by_acting_keys(keys: Seq<(u32, char, char)>, k1: &KeyState, k2: &KeyState)
    requires
        same_acting_keys(k1, k2),
    ensures
        typed_chars(keys, k1) == typed_chars(keys, k2),
    decreases keys.len(),
{
    if keys.len() > 0 {
        law_typed_chars_by_acting_keys(keys.drop_last(), k1, k2);
        assert(key_down(k1, keys.last().0) == key_down(k2, keys.last().0));
    }
}

/// Every binding whose key acts types its shifted character under shift and its plain one
/// otherwise, in table order; no other binding types anything.
pub proof fn law_typed_chars_per_binding(keys: Seq<(u32, char, char)>, k: &KeyState)
    ensures
        keys.len() > 0 ==> typed_chars(keys, k) == typed_chars(keys.drop_last(), k) + (if key_down(
            k,
            keys.last().0,
        ) {
            seq![if k.shift { keys.last().2 } else { keys.last().1 }]
        } else {
            Seq::empty()
        }),
        (forall|i: int| 0 <= i < keys.len() ==> !key_down(k, #[trigger] keys[i].0)) ==> typed_chars(
            keys,
            k,
        ) == Seq::<char>::empty(),
    decreases keys.len(),
{
    if keys.len() > 0 {
        law_typed_chars_per_binding(keys.drop_last(), k);
        if key_down(k, keys.last().0) {
            assert(typed_chars(keys.drop_last(), k).push(
                if k.shift { keys.last().2 } else { keys.last().1 },
            ) =~= typed_chars(keys.drop_last(), k) + seq![
                if k.shift { keys.last().2 } else { keys.last().1 },
            ]);
        } else {
            assert(typed_chars(keys.drop_last(), k) =~= typed_chars(keys.drop_last(), k) + Seq::<char>::empty());
        }
        if forall|i: int| 0 <= i < keys.len() ==> !key_down(k, #[trigger] keys[i].0) {
            assert forall|i: int| 0 <= i < keys.drop_last().len() implies !key_down(k, #[trigger] keys.drop_last()[i].0) by {
                assert(keys.drop_last()[i] == keys[i]);
            }
            assert(!key_down(k, keys[keys.len() - 1].0));
        }
    }
}

/// A frame depends on the keyboard only through which keys act and whether shift is held: a
/// key acting by repeat takes the same step as a fresh press.
pub proof fn law_frame_by_acting_keys(
    m: WindowModel,
    keys: Seq<(u32, char, char)>,
    k1: &KeyState,
    k2: &KeyState,
)
    requires
        same_acting_keys(k1, k2),
    ensures
        frame_update(m, keys, k1) == frame_update(m, keys, k2),
{
    law_typed_chars_by_acting_keys(keys, k1, k2);
    assert(key_down(k1, SCAN_BACKSPACE) == key_down(k2, SCAN_BACKSPACE));
    assert(key_down(k1, SCAN_ENTER) == key_down(k2, SCAN_ENTER));
    assert(key_down(k1, SCAN_UP) == key_down(k2, SCAN_UP));
    assert(key_down(k1, SCAN_LEFT) == key_down(k2, SCAN_LEFT));
    assert(key_down(k1, SCAN_DOWN) == key_down(k2, SCAN_DOWN));
    assert(key_down(k1, SCAN_RIGHT) == key_down(k2, SCAN_RIGHT));
    assert(key_down(k1, SCAN_TAB) == key_down(k2, SCAN_TAB));
}

/// A key held while strokes repeat acts as a fresh press of it: the frame gives the same
/// window, view actions and typed characters.
pub proof fn law_repeat_acts_as_press(
    m: WindowModel,
    keys: Seq<(u32, char, char)>,
    held: &KeyState,
    fresh: &KeyState,
    c: u32,
)
    requires
        held.pressed@ == seq![c],
        held.just_pressed@ == Seq::<u32>::empty(),
        held.repeated,
        fresh.pressed@ == seq![c],
        fresh.just_pressed@ == seq![c],
        !fresh.repeated,
        held.shift == fresh.shift,
    ensures
        frame_update(m, keys, held) == frame_update(m, keys, fresh),
        typed_chars(keys, held) == typed_chars(keys, fresh),
{
    assert forall|d: u32| key_down(held, d) == key_down(fresh, d) by {
        assert(held.pressed@.contains(d) == (d == c)) by {
            if d == c {
                assert(held.pressed@[0] == d);
            }
        }
        assert(fresh.just_pressed@.contains(d) == (d == c)) by {
            if d == c {
                assert(fresh.just_pressed@[0] == d);
            }
        }
        assert(!held.just_pressed@.contains(d));
    }
    law_frame_by_acting_keys(m, keys, held, fresh);
    law_typed_chars_by_acting_keys(keys, held, fresh);
}

/// When a single special key acts and it types no character, the frame is that key's own
/// step on the window: backspace, enter, an arrow or tab.
pub proof fn law_lone_special_key(m: WindowModel, keys: Seq<(u32, char, char)>, k: &KeyState, c: u32)
    requires
        on_line(m),
        0 <= m.x <= m.lines[m.y].len(),
        c == SCAN_BACKSPACE || c == SCAN_ENTER || c == SCAN_UP || c == SCAN_LEFT || c == SCAN_DOWN
            || c == SCAN_RIGHT || c == SCAN_TAB,
        forall|d: u32| key_down(k, d) == (d == c),
        forall|i: int| 0 <= i < keys.len() ==> (#[trigger] keys[i]).0 != c,
    ensures
        frame_update(m, keys, k) == key_step(c, m),
{
    law_typed_chars_per_binding(keys, k);
    assert(typed_chars(keys, k) == Seq::<char>::empty());
    let line = m.lines[m.y];
    assert(vstd::utf8::encode_utf8(Seq::<char>::empty()) =~= Seq::<u8>::empty());
    assert(line.take(m.x) + Seq::<u8>::empty() + line.skip(m.x) =~= line);
    assert(m.lines.update(m.y, line) =~= m.lines);
    assert(key_step(c, m).1 =~= Seq::<crate::text::ViewAction>::empty() + key_step(c, m).1);
}

} // verus!
