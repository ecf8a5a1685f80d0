use vstd::prelude::*;

use crate::strings::push_char;

verus! {

/// Scan code of the backspace key.
pub const SCAN_BACKSPACE: u32 = 0x0E;
/// Scan code of the enter key.
pub const SCAN_ENTER: u32 = 0x1C;
/// Scan code of the up arrow.
pub const SCAN_UP: u32 = 0x67;
/// Scan code of the left arrow.
pub const SCAN_LEFT: u32 = 0x69;
/// Scan code of the down arrow.
pub const SCAN_DOWN: u32 = 0x6C;
/// Scan code of the right arrow.
pub const SCAN_RIGHT: u32 = 0x6A;
/// Scan code of the tab key.
pub const SCAN_TAB: u32 = 0x0F;

/// The keyboard as the editor reads it in one frame: the scan codes held down, those that went
/// down this frame, whether the system is repeating the last key stroke, and whether shift is
/// active.
pub struct KeyState {
    pub pressed: Vec<u32>,
    pub just_pressed: Vec<u32>,
    pub repeated: bool,
    pub shift: bool,
}

/// A key acts this frame when it went down this frame, or is held while strokes repeat.
pub open spec fn key_down(k: &KeyState, code: u32) -> bool {
    k.just_pressed@.contains(code) || (k.pressed@.contains(code) && k.repeated)
}

/// The characters typed this frame: for each binding `(scan code, plain, shifted)` in table
/// order whose key acts, the shifted character under shift and the plain one otherwise.
pub open spec fn typed_chars(keys: Seq<(u32, char, char)>, k: &KeyState) -> Seq<char>
    decreases keys.len(),
{
    if keys.len() == 0 {
        Seq::empty()
    } else {
        let prev = typed_chars(keys.drop_last(), k);
        let b = keys.last();
        if key_down(k, b.0) {
            prev.push(if k.shift { b.2 } else { b.1 })
        } else {
            prev
        }
    }
}

/// At most one character per binding is typed in a frame.
pub proof fn lemma_typed_chars_len(keys: Seq<(u32, char, char)>, k: &KeyState)
    ensures
        typed_chars(keys, k).len() <= keys.len(),
    decreases keys.len(),
{
    if keys.len() > 0 {
        lemma_typed_chars_len(keys.drop_last(), k);
    }
}

fn contains_code(v: &Vec<u32>, code: u32) -> (b: bool)
    ensures
        b == v@.contains(code),
{
    let mut i: usize = 0;
    while i < v.len()
        invariant
            0 <= i <= v.len(),
            forall|j: int| 0 <= j < i ==> v@[j] != code,
        decreases v.len() - i,
    {
        if v[i] == code {
            return true;
        }
        i = i + 1;
    }
    false
}

impl KeyState {
    /// Whether the key with scan code `code` acts this frame (see [`key_down`]).
    pub fn is_down(&self, code: u32) -> (b: bool)
        ensures
            b == key_down(self, code),
    {
        contains_code(&self.just_pressed, code) || (contains_code(&self.pressed, code)
            && self.repeated)
    }
}

/// The characters typed this frame through the bindings `keys` (see [`typed_chars`]).
pub fn pressed_keys(keys: &Vec<(u32, char, char)>, kbd: &KeyState) -> (r: String)
    ensures
        r@ == typed_chars(keys@, kbd),
{
    let mut r = String::new();
    let mut i: usize = 0;
    while i < keys.len()
        invariant
            0 <= i <= keys.len(),
            r@ == typed_chars(keys@.take(i as int), kbd),
        decreases keys.len() - i,
    {
        let b = keys[i];
        proof {
            assert(keys@.take(i + 1).drop_last() =~= keys@.take(i as int));
        }
        if kbd.is_down(b.0) {
            if kbd.shift {
                push_char(&mut r, b.2);
            } else {
                push_char(&mut r, b.1);
            }
        }
        i = i + 1;
    }
    proof {
        assert(keys@.take(keys@.len() as int) =~= keys@);
    }
    r
}

/// The bindings of a British keyboard layout: scan code, plain character, shifted character.
pub open spec fn key_table() -> Seq<(u32, char, char)> {
    seq![
        (0x10u32, 'q', 'Q'), (0x11u32, 'w', 'W'), (0x12u32, 'e', 'E'), (0x13u32, 'r', 'R'),
        (0x14u32, 't', 'T'), (0x15u32, 'y', 'Y'), (0x16u32, 'u', 'U'), (0x17u32, 'i', 'I'),
        (0x18u32, 'o', 'O'), (0x19u32, 'p', 'P'), (0x1Au32, '[', '{'), (0x1Bu32, ']', '}'),
        (0x1Eu32, 'a', 'A'), (0x1Fu32, 's', 'S'), (0x20u32, 'd', 'D'), (0x21u32, 'f', 'F'),
        (0x22u32, 'g', 'G'), (0x23u32, 'h', 'H'), (0x24u32, 'j', 'J'), (0x25u32, 'k', 'K'),
        (0x26u32, 'l', 'L'), (0x27u32, ';', ':'), (0x28u32, '\'', '@'), (0x2Bu32, '#', '~'),
        (0x56u32, '\\', '|'), (0x2Cu32, 'z', 'Z'), (0x2Du32, 'x', 'X'), (0x2Eu32, 'c', 'C'),
        (0x2Fu32, 'v', 'V'), (0x30u32, 'b', 'B'), (0x31u32, 'n', 'N'), (0x32u32, 'm', 'M'),
        (0x33u32, ',', '<'), (0x34u32, '.', '>'), (0x35u32, '/', '?'), (0x29u32, '`', '\u{ac}'),
        (0x02u32, '1', '!'), (0x03u32, '2', '"'), (0x04u32, '3', '\u{a3}'), (0x05u32, '4', '$'),
        (0x06u32, '5', '%'), (0x07u32, '6', '^'), (0x08u32, '7', '&'), (0x09u32, '8', '*'),
        (0x0Au32, '9', '('), (0x0Bu32, '0', ')'), (0x0Cu32, '-', '_'), (0x0Du32, '=', '+'),
        (0x39u32, ' ', ' '),
    ]
}

/// The key bindings the editor checks every frame (see [`key_table`]).
pub fn default_key_table() -> (t: Vec<(u32, char, char)>)
    ensures
        t@ == key_table(),
{
    let t = vec![
        (0x10u32, 'q', 'Q'), (0x11u32, 'w', 'W'), (0x12u32, 'e', 'E'), (0x13u32, 'r', 'R'),
        (0x14u32, 't', 'T'), (0x15u32, 'y', 'Y'), (0x16u32, 'u', 'U'), (0x17u32, 'i', 'I'),
        (0x18u32, 'o', 'O'), (0x19u32, 'p', 'P'), (0x1Au32, '[', '{'), (0x1Bu32, ']', '}'),
        (0x1Eu32, 'a', 'A'), (0x1Fu32, 's', 'S'), (0x20u32, 'd', 'D'), (0x21u32, 'f', 'F'),
        (0x22u32, 'g', 'G'), (0x23u32, 'h', 'H'), (0x24u32, 'j', 'J'), (0x25u32, 'k', 'K'),
        (0x26u32, 'l', 'L'), (0x27u32, ';', ':'), (0x28u32, '\'', '@'), (0x2Bu32, '#', '~'),
        (0x56u32, '\\', '|'), (0x2Cu32, 'z', 'Z'), (0x2Du32, 'x', 'X'), (0x2Eu32, 'c', 'C'),
        (0x2Fu32, 'v', 'V'), (0x30u32, 'b', 'B'), (0x31u32, 'n', 'N'), (0x32u32, 'm', 'M'),
        (0x33u32, ',', '<'), (0x34u32, '.', '>'), (0x35u32, '/', '?'), (0x29u32, '`', '\u{ac}'),
        (0x02u32, '1', '!'), (0x03u32, '2', '"'), (0x04u32, '3', '\u{a3}'), (0x05u32, '4', '$'),
        (0x06u32, '5', '%'), (0x07u32, '6', '^'), (0x08u32, '7', '&'), (0x09u32, '8', '*'),
        (0x0Au32, '9', '('), (0x0Bu32, '0', ')'), (0x0Cu32, '-', '_'), (0x0Du32, '=', '+'),
        (0x39u32, ' ', ' '),
    ];
    proof {
        assert(t@ =~= key_table());
    }
    t
}

} // verus!
