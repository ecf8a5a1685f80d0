use vstd::prelude::*;
use vstd::utf8::{decode_utf8, encode_utf8, is_char_boundary, valid_utf8};

use crate::strings::{
    byte_len, char_count, char_slice, concat2, concat3, lemma_boundary_within, lemma_encode_concat,
    lemma_encode_drop_space, lemma_encode_space, push_char, split_bytes,
};

verus! {

broadcast use vstd::utf8::group_utf8_lib;

/// The abstract content of a text window: its lines as UTF-8 bytes and the cursor, `x`
/// counting bytes into line `y`.
pub struct WindowModel {
    pub lines: Seq<Seq<u8>>,
    pub x: int,
    pub y: int,
}

/// One open text buffer: its lines and the cursor position (byte column, line).
pub struct TextWindow {
    pub lines: Vec<String>,
    pub cursor_x: usize,
    pub cursor_y: usize,
}

/// The lines of a vector of strings, as character sequences.
pub open spec fn chars_of(lines: Seq<String>) -> Seq<Seq<char>> {
    lines.map_values(|l: String| l@)
}

/// The lines of a vector of strings, as UTF-8 bytes.
pub open spec fn bytes_of(lines: Seq<String>) -> Seq<Seq<u8>> {
    lines.map_values(|l: String| encode_utf8(l@))
}

/// Lines of characters, each encoded in UTF-8.
pub open spec fn encoded(ls: Seq<Seq<char>>) -> Seq<Seq<u8>> {
    ls.map_values(|l: Seq<char>| encode_utf8(l))
}

impl View for TextWindow {
    type V = WindowModel;

    open spec fn view(&self) -> WindowModel {
        WindowModel { lines: bytes_of(self.lines@), x: self.cursor_x as int, y: self.cursor_y as int }
    }
}

/// Every line is valid UTF-8.
pub open spec fn lines_valid(m: WindowModel) -> bool {
    forall|i: int| 0 <= i < m.lines.len() ==> valid_utf8(#[trigger] m.lines[i])
}

/// The cursor stands on an existing line (its column may lie anywhere).
pub open spec fn on_line(m: WindowModel) -> bool {
    0 <= m.y < m.lines.len()
}

/// The cursor stands on an existing line, at the start of a character or at the line's end:
/// where text can be inserted.
pub open spec fn at_boundary(m: WindowModel) -> bool {
    on_line(m) && is_char_boundary(m.lines[m.y], m.x)
}

/// The cursor stands on an existing line, and its column can grow by one: within the line, or
/// below the largest `usize`.
pub open spec fn cursor_sane(m: WindowModel) -> bool {
    on_line(m) && (m.x <= m.lines[m.y].len() || m.x < usize::MAX)
}

/// Inserting the bytes `s` at the cursor; the cursor moves past them.
pub open spec fn insert_at_cursor(m: WindowModel, s: Seq<u8>) -> WindowModel {
    let line = m.lines[m.y];
    WindowModel {
        lines: m.lines.update(m.y, line.take(m.x) + s + line.skip(m.x)),
        x: m.x + s.len(),
        y: m.y,
    }
}

/// What the window asks of the view after an editing step, in order.
/// `FollowCursor` scrolls so that the cursor at column `x` of line `y` stays in sight;
/// `ResetOffsetX` scrolls back to the first column; `FitLine` scrolls horizontally to the
/// end of a line `len` bytes long when it is wider than the text area.
#[derive(Clone, Copy, Debug, PartialEq, Eq)]
pub enum ViewAction {
    FollowCursor { x: usize, y: usize },
    ResetOffsetX,
    FitLine { len: usize },
}

/// The view action that follows the cursor of `m`.
pub open spec fn follow(m: WindowModel) -> ViewAction {
    ViewAction::FollowCursor { x: m.x as usize, y: m.y as usize }
}

/// Removing before a cursor inside the line takes the single byte before it, which must be a
/// whole character: both of its ends must be character boundaries.
pub open spec fn remove_faults(m: WindowModel) -> bool {
    let line = m.lines[m.y];
    &&& 1 <= m.x < line.len()
    &&& !(is_char_boundary(line, m.x - 1) && is_char_boundary(line, m.x))
}

/// The character that removing at the cursor takes away: inside the line, the one-byte
/// character just before the cursor; at the end of the line, its last character; nothing at
/// the start of the line (or beyond its end).
pub open spec fn removed_char(m: WindowModel) -> Option<char> {
    let line = m.lines[m.y];
    if 1 <= m.x < line.len() {
        Some(decode_utf8(line.subrange(m.x - 1, m.x))[0])
    } else if m.x != 0 && m.x == line.len() {
        Some(decode_utf8(line).last())
    } else {
        None
    }
}

/// The window after removing at the cursor (the cursor stays put): inside the line, the byte
/// before the cursor goes; at the end of the line, its last character goes.
pub open spec fn after_remove(m: WindowModel) -> WindowModel {
    let line = m.lines[m.y];
    if 1 <= m.x < line.len() {
        WindowModel { lines: m.lines.update(m.y, line.remove(m.x - 1)), ..m }
    } else if m.x != 0 && m.x == line.len() {
        WindowModel { lines: m.lines.update(m.y, encode_utf8(decode_utf8(line).drop_last())), ..m }
    } else {
        m
    }
}

/// Backspace faults: removing at the cursor faults, or a space was removed and the check
/// for three spaces before the new cursor reaches before the line's start or into the middle
/// of a character.
pub open spec fn backspace_faults(m: WindowModel) -> bool {
    let nl = after_remove(m).lines[m.y];
    ||| remove_faults(m)
    ||| {
        &&& removed_char(m) == Some(' ')
        &&& m.x - 1 != 0
        &&& nl.len() >= 3
        &&& (m.x - 1 < 3 || !is_char_boundary(nl, m.x - 4))
    }
}

/// Three spaces stand just before byte column `x` of `line`.
pub open spec fn spaces_before(line: Seq<u8>, x: int) -> bool {
    &&& line[x - 3] == 32u8
    &&& line[x - 2] == 32u8
    &&& line[x - 1] == 32u8
}

/// Backspace: removes at the cursor and steps back one byte (and three more when a space was
/// removed after three spaces); at the start of a line, joins the line to the previous one and
/// puts the cursor at the joint.
pub open spec fn backspace(m: WindowModel) -> (WindowModel, Seq<ViewAction>) {
    let line = m.lines[m.y];
    match removed_char(m) {
        Some(c) => {
            let lines = after_remove(m).lines;
            let nl = lines[m.y];
            let x1 = m.x - 1;
            if x1 == 0 {
                let r = WindowModel { lines, x: 0, y: m.y };
                (r, seq![ViewAction::ResetOffsetX, follow(r)])
            } else if c == ' ' && nl.len() >= 3 && spaces_before(nl, x1) {
                let r = WindowModel { lines, x: x1 - 3, y: m.y };
                (r, seq![follow(r)])
            } else {
                let r = WindowModel { lines, x: x1, y: m.y };
                (r, seq![follow(r)])
            }
        },
        None => {
            if m.y > 0 {
                let prev = m.lines[m.y - 1];
                let r = WindowModel {
                    lines: m.lines.remove(m.y).update(m.y - 1, prev + line),
                    x: prev.len() as int,
                    y: m.y - 1,
                };
                (r, seq![ViewAction::FitLine { len: prev.len() as usize }, follow(r)])
            } else {
                (m, seq![follow(m)])
            }
        },
    }
}

/// Enter faults when the cursor stands inside the line but not at the start of a character.
pub open spec fn enter_faults(m: WindowModel) -> bool {
    m.x < m.lines[m.y].len() && !is_char_boundary(m.lines[m.y], m.x)
}

/// Enter: the rest of the line after the cursor (if the cursor is inside it) moves to a new
/// line below; the cursor goes to the start of that new line.
pub open spec fn enter(m: WindowModel) -> (WindowModel, Seq<ViewAction>) {
    let line = m.lines[m.y];
    let lines = if line.len() > m.x {
        m.lines.update(m.y, line.take(m.x)).insert(m.y + 1, line.skip(m.x))
    } else {
        m.lines.insert(m.y + 1, Seq::empty())
    };
    let r = WindowModel { lines, x: 0, y: m.y + 1 };
    (r, seq![ViewAction::ResetOffsetX, follow(r)])
}

/// The column kept when the cursor moves to line `y`: the same one, or the end of that line
/// when it is shorter.
pub open spec fn clamped_x(m: WindowModel, y: int) -> int {
    if m.lines[y].len() < m.x {
        m.lines[y].len() as int
    } else {
        m.x
    }
}

/// Arrow up: to the line above, if there is one.
pub open spec fn move_up(m: WindowModel) -> WindowModel {
    if m.y != 0 {
        WindowModel { lines: m.lines, x: clamped_x(m, m.y - 1), y: m.y - 1 }
    } else {
        m
    }
}

/// Arrow down: to the line below, if there is one.
pub open spec fn move_down(m: WindowModel) -> WindowModel {
    if m.y < m.lines.len() - 1 {
        WindowModel { lines: m.lines, x: clamped_x(m, m.y + 1), y: m.y + 1 }
    } else {
        m
    }
}

/// Arrow left: one byte back, unless at the start of the line.
pub open spec fn move_left(m: WindowModel) -> WindowModel {
    if m.x != 0 {
        WindowModel { x: m.x - 1, ..m }
    } else {
        m
    }
}

/// Arrow right: one byte on, unless at the end of the line.
pub open spec fn move_right(m: WindowModel) -> WindowModel {
    if m.x != m.lines[m.y].len() {
        WindowModel { x: m.x + 1, ..m }
    } else {
        m
    }
}

/// The four spaces that the tab key inserts, as bytes.
pub open spec fn tab_text() -> Seq<u8> {
    seq![32u8, 32u8, 32u8, 32u8]
}

proof fn lemma_bytes_of_update(lines: Seq<String>, i: int, s: String)
    requires
        0 <= i < lines.len(),
    ensures
        bytes_of(lines.update(i, s)) == bytes_of(lines).update(i, encode_utf8(s@)),
{
    assert(bytes_of(lines.update(i, s)) =~= bytes_of(lines).update(i, encode_utf8(s@)));
}

/// The lines of a text: the pieces between its newline characters (one more piece than there
/// are newlines).
pub open spec fn split_lines(s: Seq<char>) -> Seq<Seq<char>>
    decreases s.len(),
{
    if s.len() == 0 {
        seq![Seq::empty()]
    } else {
        let prev = split_lines(s.drop_last());
        if s.last() == '\n' {
            prev.push(Seq::empty())
        } else {
            prev.update(prev.len() - 1, prev.last().push(s.last()))
        }
    }
}

/// Lines joined back into one text, a newline between each two.
pub open spec fn join_lines(ls: Seq<Seq<char>>) -> Seq<char>
    decreases ls.len(),
{
    if ls.len() == 0 {
        Seq::empty()
    } else if ls.len() == 1 {
        ls[0]
    } else {
        join_lines(ls.drop_last()) + seq!['\n'] + ls.last()
    }
}

/// A text always splits into at least one line.
pub proof fn lemma_split_lines_nonempty(s: Seq<char>)
    ensures
        split_lines(s).len() >= 1,
    decreases s.len(),
{
    if s.len() > 0 {
        lemma_split_lines_nonempty(s.drop_last());
    }
}

proof fn lemma_join_extend_last(ls: Seq<Seq<char>>, c: char)
    requires
        ls.len() >= 1,
    ensures
        join_lines(ls.update(ls.len() - 1, ls.last().push(c))) == join_lines(ls).push(c),
{
    let nl = ls.update(ls.len() - 1, ls.last().push(c));
    if ls.len() >= 2 {
        assert(nl.drop_last() =~= ls.drop_last());
        assert(join_lines(nl) =~= join_lines(ls).push(c));
    }
}

/// Splitting a text into lines and joining them with newlines gives the text back, and no
/// line holds a newline: loading a file keeps its content.
pub proof fn lemma_split_join(s: Seq<char>)
    ensures
        join_lines(split_lines(s)) == s,
        forall|i: int| 0 <= i < split_lines(s).len() ==> !(#[trigger] split_lines(s)[i]).contains('\n'),
    decreases s.len(),
{
    if s.len() == 0 {
        assert(join_lines(split_lines(s)) =~= s);
        assert forall|i: int| 0 <= i < split_lines(s).len() implies !(#[trigger] split_lines(s)[i]).contains('\n') by {
            assert(split_lines(s)[i] =~= Seq::<char>::empty());
        }
    } else {
        let p = s.drop_last();
        lemma_split_join(p);
        lemma_split_lines_nonempty(p);
        let prev = split_lines(p);
        if s.last() == '\n' {
            assert(prev.push(Seq::empty()).drop_last() =~= prev);
            assert(join_lines(split_lines(s)) =~= s);
            assert forall|i: int| 0 <= i < split_lines(s).len() implies !(#[trigger] split_lines(s)[i]).contains('\n') by {
                if i < prev.len() {
                    assert(split_lines(s)[i] == prev[i]);
                } else {
                    assert(split_lines(s)[i] =~= Seq::<char>::empty());
                }
            }
        } else {
            lemma_join_extend_last(prev, s.last());
            assert(p.push(s.last()) =~= s);
            assert forall|i: int| 0 <= i < split_lines(s).len() implies !(#[trigger] split_lines(s)[i]).contains('\n') by {
                if i < prev.len() - 1 {
                    assert(split_lines(s)[i] == prev[i]);
                } else {
                    let l = prev.last().push(s.last());
                    assert(split_lines(s)[i] == l);
                    if l.contains('\n') {
                        let k = choose|k: int| 0 <= k < l.len() && l[k] == '\n';
                        assert(prev[prev.len() - 1][k] == '\n');
                        assert(prev[prev.len() - 1].contains('\n'));
                    }
                }
            }
        }
    }
}

/// Splits a text into its lines (see [`split_lines`]).
pub fn split_text_lines(text: &str) -> (lines: Vec<String>)
    ensures
        chars_of(lines@) == split_lines(text@),
{
    broadcast use vstd::string::group_string_axioms;

    let mut lines: Vec<String> = Vec::new();
    let mut cur = String::new();
    for c in it: text.chars()
        invariant
            it.seq() == text@,
            chars_of(lines@).push(cur@) == split_lines(text@.take(it.index())),
    {
        let ghost done = text@.take(it.index());
        proof {
            assert(text@.take(it.index() + 1) =~= done.push(c));
            assert(done.push(c).drop_last() =~= done);
            lemma_split_lines_nonempty(done);
        }
        if c == '\n' {
            lines.push(cur);
            cur = String::new();
            proof {
                assert(chars_of(lines@).push(cur@) =~= split_lines(done).push(Seq::empty()));
            }
        } else {
            push_char(&mut cur, c);
            proof {
                let prev = split_lines(done);
                assert(chars_of(lines@).push(cur@) =~= prev.update(prev.len() - 1, prev.last().push(c)));
            }
        }
    }
    proof {
        assert(text@.take(text@.len() as int) =~= text@);
    }
    lines.push(cur);
    lines
}

impl TextWindow {
    /// A window over the given lines, with the cursor at the start of the first line.
    pub fn new(lines_p: Vec<String>) -> (w: TextWindow)
        ensures
            w@.lines == bytes_of(lines_p@),
            w@.x == 0,
            w@.y == 0,
    {
        TextWindow { lines: lines_p, cursor_x: 0, cursor_y: 0 }
    }

    /// Every line of a window is valid UTF-8.
    pub proof fn lemma_lines_valid(&self)
        ensures
            lines_valid(self@),
    {
        assert forall|i: int| 0 <= i < self@.lines.len() implies valid_utf8(#[trigger] self@.lines[i]) by {
            assert(self@.lines[i] == encode_utf8(self.lines@[i]@));
        }
    }

    /// Inserts `s` at the cursor and moves the cursor past it.
    pub fn insert_str_at_cursor(&mut self, s: &str)
        requires
            at_boundary(old(self)@),
        ensures
            final(self)@ == insert_at_cursor(old(self)@, encode_utf8(s@)),
            at_boundary(final(self)@),
            cursor_sane(final(self)@),
    {
        let y = self.cursor_y;
        let x = self.cursor_x;
        let line = &self.lines[y];
        assert(self@.lines[y as int] == encode_utf8(line@));
        let (head, tail) = split_bytes(line, x);
        let new_line = concat3(head, s, tail.as_str());
        let new_len = byte_len(&new_line);
        proof {
            lemma_encode_concat(head@, s@);
            lemma_encode_concat(head@ + s@, tail@);
        }
        let ghost old_lines = self.lines@;
        self.lines.set(y, new_line);
        self.cursor_x = x + s.len();
        proof {
            lemma_bytes_of_update(old_lines, y as int, new_line);
            let nb = encode_utf8(new_line@);
            assert(nb.take(x + encode_utf8(s@).len()).len() == x + encode_utf8(s@).len());
            assert(is_char_boundary(encode_utf8(head@ + s@) + encode_utf8(tail@), (encode_utf8(head@ + s@)).len() as int)) by {
                let whole = encode_utf8(head@ + s@) + encode_utf8(tail@);
                let k = encode_utf8(head@ + s@).len() as int;
                if k < whole.len() {
                    assert(whole.subrange(k, whole.len() as int) =~= encode_utf8(tail@));
                    assert(is_char_boundary(encode_utf8(tail@), 0));
                    assert(whole[k] == encode_utf8(tail@)[0]);
                }
            }
            lemma_boundary_within(nb, x + encode_utf8(s@).len());
        }
    }

    /// Removes at the cursor (see [`after_remove`]) and returns what it took away. The cursor
    /// does not move.
    pub fn remove_at_cursor(&mut self) -> (c: Option<char>)
        requires
            on_line(old(self)@),
            !remove_faults(old(self)@),
        ensures
            c == removed_char(old(self)@),
            final(self)@ == after_remove(old(self)@),
    {
        let y = self.cursor_y;
        let x = self.cursor_x;
        let line = &self.lines[y];
        let ghost bytes = encode_utf8(line@);
        assert(self@.lines[y as int] == bytes);
        let n = byte_len(line);
        let ghost old_lines = self.lines@;
        if 1 <= x && x < n {
            let (left, tail) = split_bytes(line, x);
            proof {
                assert(is_char_boundary(bytes.take(x as int), x - 1)) by {
                    assert(bytes.take(x as int)[x - 1] == bytes[x - 1]);
                }
            }
            let (head, mid) = split_bytes(&left, x - 1);
            proof {
                assert(encode_utf8(mid@) =~= bytes.subrange(x - 1, x as int));
                assert(mid@.len() > 0);
            }
            let c = mid.as_str().get_char(0);
            let new_line = concat2(head, tail.as_str());
            proof {
                lemma_encode_concat(head@, tail@);
                assert(encode_utf8(new_line@) =~= bytes.remove(x - 1));
            }
            self.lines.set(y, new_line);
            proof {
                lemma_bytes_of_update(old_lines, y as int, new_line);
            }
            Some(c)
        } else if x != 0 && x == n {
            let k = char_count(line);
            proof {
                assert(k > 0);
            }
            let c = line.as_str().get_char(k - 1);
            let new_line = char_slice(line, 0, k - 1);
            proof {
                assert(new_line@ =~= line@.drop_last());
            }
            self.lines.set(y, new_line);
            proof {
                lemma_bytes_of_update(old_lines, y as int, new_line);
            }
            Some(c)
        } else {
            None
        }
    }

    /// Backspace at the cursor (see [`backspace`]); the view actions are appended to `actions`.
    pub fn backspace(&mut self, actions: &mut Vec<ViewAction>)
        requires
            on_line(old(self)@),
            !backspace_faults(old(self)@),
        ensures
            final(self)@ == backspace(old(self)@).0,
            final(actions)@ == old(actions)@ + backspace(old(self)@).1,
            cursor_sane(final(self)@) || !cursor_sane(old(self)@),
            on_line(final(self)@),
    {
        let ghost m = self@;
        match self.remove_at_cursor() {
            Some(c) => {
                assert(self.lines@.len() == self@.lines.len());
                self.cursor_x = self.cursor_x - 1;
                if self.cursor_x == 0 {
                    actions.push(ViewAction::ResetOffsetX);
                } else {
                    let x = self.cursor_x;
                    let line = &self.lines[self.cursor_y];
                    assert(self@.lines[self.cursor_y as int] == encode_utf8(line@));
                    let n = byte_len(line);
                    if c == ' ' && n >= 3 {
                        assert(x >= 3);
                        proof {
                            let line0 = m.lines[m.y];
                            if !(1 <= m.x < line0.len()) {
                                let cs = old(self).lines@[m.y]@;
                                assert(line0 == encode_utf8(cs));
                                assert(cs.len() > 0);
                                lemma_encode_drop_space(cs);
                            }
                        }
                        let b = line.as_str().as_bytes();
                        if b[x - 3] == 32u8 && b[x - 2] == 32u8 && b[x - 1] == 32u8 {
                            self.cursor_x = x - 3;
                        }
                    }
                }
                actions.push(ViewAction::FollowCursor { x: self.cursor_x, y: self.cursor_y });
            },
            None => {
                if self.cursor_y > 0 {
                    let y = self.cursor_y;
                    let temp = self.lines.remove(y);
                    self.cursor_y = y - 1;
                    let prev = &self.lines[y - 1];
                    let plen = byte_len(prev);
                    self.cursor_x = plen;
                    actions.push(ViewAction::FitLine { len: plen });
                    let joined = concat2(prev.clone(), temp.as_str());
                    proof {
                        lemma_encode_concat(prev@, temp@);
                    }
                    self.lines.set(y - 1, joined);
                    proof {
                        assert(bytes_of(self.lines@) =~= m.lines.remove(y as int).update(
                            y - 1,
                            m.lines[y - 1] + m.lines[y as int],
                        ));
                    }
                }
                actions.push(ViewAction::FollowCursor { x: self.cursor_x, y: self.cursor_y });
            },
        }
        proof {
            assert(final(actions)@ =~= old(actions)@ + backspace(m).1);
        }
    }

    /// Enter at the cursor (see [`enter`]); the view actions are appended to `actions`.
    pub fn enter(&mut self, actions: &mut Vec<ViewAction>)
        requires
            on_line(old(self)@),
            !enter_faults(old(self)@),
        ensures
            final(self)@ == enter(old(self)@).0,
            final(actions)@ == old(actions)@ + enter(old(self)@).1,
            cursor_sane(final(self)@),
    {
        let ghost m = self@;
        let y = self.cursor_y;
        let x = self.cursor_x;
        let count = self.lines.len();
        assert(count == m.lines.len());
        let line = &self.lines[y];
        assert(m.lines[y as int] == encode_utf8(line@));
        let n = byte_len(line);
        if n > x {
            let (head, carry) = split_bytes(line, x);
            self.lines.set(y, head);
            self.lines.insert(y + 1, carry);
        } else {
            self.lines.insert(y + 1, String::new());
        }
        self.cursor_y = y + 1;
        self.cursor_x = 0;
        actions.push(ViewAction::ResetOffsetX);
        actions.push(ViewAction::FollowCursor { x: self.cursor_x, y: self.cursor_y });
        proof {
            assert(bytes_of(self.lines@) =~= enter(m).0.lines);
            assert(final(actions)@ =~= old(actions)@ + enter(m).1);
        }
    }

    /// Arrow up (see [`move_up`]).
    pub fn move_up(&mut self)
        requires
            on_line(old(self)@),
        ensures
            final(self)@ == move_up(old(self)@),
            on_line(final(self)@),
            cursor_sane(old(self)@) ==> cursor_sane(final(self)@),
    {
        if self.cursor_y != 0 {
            self.cursor_y = self.cursor_y - 1;
            assert(self@.lines[self.cursor_y as int] == encode_utf8(self.lines@[self.cursor_y as int]@));
            let n = byte_len(&self.lines[self.cursor_y]);
            if n < self.cursor_x {
                self.cursor_x = n;
            }
        }
    }

    /// Arrow down (see [`move_down`]).
    pub fn move_down(&mut self)
        requires
            on_line(old(self)@),
        ensures
            final(self)@ == move_down(old(self)@),
            on_line(final(self)@),
            cursor_sane(old(self)@) ==> cursor_sane(final(self)@),
    {
        if self.cursor_y < self.lines.len() - 1 {
            self.cursor_y = self.cursor_y + 1;
            assert(self@.lines[self.cursor_y as int] == encode_utf8(self.lines@[self.cursor_y as int]@));
            let n = byte_len(&self.lines[self.cursor_y]);
            if n < self.cursor_x {
                self.cursor_x = n;
            }
        }
    }

    /// Arrow left (see [`move_left`]).
    pub fn move_left(&mut self)
        requires
            on_line(old(self)@),
        ensures
            final(self)@ == move_left(old(self)@),
            on_line(final(self)@),
            cursor_sane(old(self)@) ==> cursor_sane(final(self)@),
    {
        if self.cursor_x != 0 {
            self.cursor_x = self.cursor_x - 1;
        }
    }

    /// Arrow right (see [`move_right`]).
    pub fn move_right(&mut self)
        requires
            cursor_sane(old(self)@),
        ensures
            final(self)@ == move_right(old(self)@),
            on_line(final(self)@),
    {
        assert(self@.lines[self.cursor_y as int] == encode_utf8(self.lines@[self.cursor_y as int]@));
        let n = byte_len(&self.lines[self.cursor_y]);
        if self.cursor_x != n {
            self.cursor_x = self.cursor_x + 1;
        }
    }

    /// Replaces the content with the lines of `text`. The cursor is left where it was.
    pub fn load_text(&mut self, text: &str)
        ensures
            final(self)@.lines == encoded(split_lines(text@)),
            final(self)@.x == old(self)@.x,
            final(self)@.y == old(self)@.y,
    {
        self.lines = split_text_lines(text);
        proof {
            assert(bytes_of(self.lines@) =~= encoded(chars_of(self.lines@)));
        }
    }

    /// A copy of the window.
    pub fn duplicate(&self) -> (w: TextWindow)
        ensures
            w@ == self@,
    {
        let mut lines: Vec<String> = Vec::new();
        let mut i: usize = 0;
        while i < self.lines.len()
            invariant
                0 <= i <= self.lines@.len(),
                lines@ == self.lines@.take(i as int),
            decreases self.lines@.len() - i,
        {
            lines.push(self.lines[i].clone());
            proof {
                assert(lines@ =~= self.lines@.take(i + 1));
            }
            i = i + 1;
        }
        proof {
            assert(lines@ =~= self.lines@);
        }
        TextWindow { lines, cursor_x: self.cursor_x, cursor_y: self.cursor_y }
    }

    /// Whether removing at the cursor now would fault (see [`remove_faults`]).
    pub fn remove_would_fault(&self) -> (b: bool)
        requires
            on_line(self@),
        ensures
            b == remove_faults(self@),
    {
        let x = self.cursor_x;
        let line = &self.lines[self.cursor_y];
        assert(self@.lines[self.cursor_y as int] == encode_utf8(line@));
        let n = byte_len(line);
        if 1 <= x && x < n {
            !(line.as_str().is_char_boundary(x - 1) && line.as_str().is_char_boundary(x))
        } else {
            false
        }
    }

    /// Whether a backspace now would fault (see [`backspace_faults`]).
    pub fn backspace_would_fault(&self) -> (b: bool)
        requires
            on_line(self@),
        ensures
            b == backspace_faults(self@),
    {
        if self.remove_would_fault() {
            return true;
        }
        let x = self.cursor_x;
        let mut w = self.duplicate();
        let c = w.remove_at_cursor();
        assert(w.lines@.len() == w@.lines.len());
        let nl = &w.lines[w.cursor_y];
        assert(w@.lines[w.cursor_y as int] == encode_utf8(nl@));
        let n = byte_len(nl);
        if c == Some(' ') && x != 1 && n >= 3 {
            x < 4 || !nl.as_str().is_char_boundary(x - 4)
        } else {
            false
        }
    }

    /// Whether Enter now would fault (see [`enter_faults`]).
    pub fn enter_would_fault(&self) -> (b: bool)
        requires
            on_line(self@),
        ensures
            b == enter_faults(self@),
    {
        let line = &self.lines[self.cursor_y];
        assert(self@.lines[self.cursor_y as int] == encode_utf8(line@));
        self.cursor_x < byte_len(line) && !line.as_str().is_char_boundary(self.cursor_x)
    }

    /// Whether the cursor stands where text can be inserted (see [`at_boundary`]).
    pub fn is_at_boundary(&self) -> (b: bool)
        requires
            on_line(self@),
        ensures
            b == at_boundary(self@),
    {
        let line = &self.lines[self.cursor_y];
        assert(self@.lines[self.cursor_y as int] == encode_utf8(line@));
        line.as_str().is_char_boundary(self.cursor_x)
    }

    /// Tab: inserts four spaces at the cursor.
    pub fn tab(&mut self)
        requires
            at_boundary(old(self)@),
        ensures
            final(self)@ == insert_at_cursor(old(self)@, tab_text()),
            at_boundary(final(self)@),
            cursor_sane(final(self)@),
    {
        let spaces = "    ";
        proof {
            reveal_strlit("    ");
            assert(spaces@ =~= seq![' ', ' ', ' ', ' ']);
            lemma_encode_space();
            let sp = seq![' '];
            lemma_encode_concat(sp, sp);
            lemma_encode_concat(sp + sp, sp);
            lemma_encode_concat(sp + sp + sp, sp);
            assert(spaces@ =~= sp + sp + sp + sp);
            assert(encode_utf8(spaces@) =~= tab_text());
        }
        self.insert_str_at_cursor(spaces);
    }
}

} // verus!
