use vstd::prelude::*;

use crate::explorer::{
    click_input, count_entries, directory_layout, forest_size, found_model, layout_forest,
    nodes_model, recurse_click_check_direc, rows_model, walk_forest, ClickOutcome,
    DirectoryNode, LayoutRow, Walked,
};
use crate::keys::{
    default_key_table, key_down, key_table, pressed_keys, typed_chars, KeyState, SCAN_BACKSPACE,
    SCAN_DOWN, SCAN_ENTER, SCAN_LEFT, SCAN_RIGHT, SCAN_TAB, SCAN_UP,
};
use crate::text::{
    after_remove, at_boundary, backspace, backspace_faults, cursor_sane, encoded, enter,
    enter_faults, follow, insert_at_cursor, move_down, move_left, move_right, move_up, on_line,
    remove_faults, removed_char, split_lines, tab_text, TextWindow, ViewAction, WindowModel,
};
use vstd::utf8::encode_utf8;

verus! {

/// The editor: its text windows and the one in use, the key bindings it reads every frame,
/// and the top-level entries of its explorer.
pub struct Editor {
    pub windows: Vec<TextWindow>,
    pub curr_window: usize,
    pub keys_to_check: Vec<(u32, char, char)>,
    pub top_level_directory: Vec<DirectoryNode>,
}

/// A key step: when the key acts, the window after the step and its view actions; otherwise
/// nothing changes.
pub open spec fn when_down(
    down: bool,
    m: WindowModel,
    step: (WindowModel, Seq<ViewAction>),
) -> (WindowModel, Seq<ViewAction>) {
    if down {
        step
    } else {
        (m, Seq::empty())
    }
}

/// A cursor move followed by the view following the cursor.
pub open spec fn moved(r: WindowModel) -> (WindowModel, Seq<ViewAction>) {
    (r, seq![follow(r)])
}

/// Typing: the characters typed this frame are inserted at the cursor, which moves past their
/// bytes; the view follows the cursor when anything was typed.
pub open spec fn typed(m: WindowModel, s: Seq<char>) -> (WindowModel, Seq<ViewAction>) {
    let r = insert_at_cursor(m, encode_utf8(s));
    (r, if s.len() > 0 { seq![follow(r)] } else { Seq::empty() })
}

/// Runs `step` after the steps taken so far: the window of `step`, after the view actions
/// so far and those of `step`.
pub open spec fn chain(
    st: (WindowModel, Seq<ViewAction>),
    step: (WindowModel, Seq<ViewAction>),
) -> (WindowModel, Seq<ViewAction>) {
    (step.0, st.1 + step.1)
}

/// The step of the key with scan code `code` on window `m` (nothing for other codes).
pub open spec fn key_step(code: u32, m: WindowModel) -> (WindowModel, Seq<ViewAction>) {
    if code == SCAN_BACKSPACE {
        backspace(m)
    } else if code == SCAN_ENTER {
        enter(m)
    } else if code == SCAN_UP {
        moved(move_up(m))
    } else if code == SCAN_LEFT {
        moved(move_left(m))
    } else if code == SCAN_DOWN {
        moved(move_down(m))
    } else if code == SCAN_RIGHT {
        moved(move_right(m))
    } else if code == SCAN_TAB {
        moved(insert_at_cursor(m, tab_text()))
    } else {
        (m, Seq::empty())
    }
}

/// The steps so far, followed by the step of key `code` when it acts this frame.
pub open spec fn then_key(
    st: (WindowModel, Seq<ViewAction>),
    k: &KeyState,
    code: u32,
) -> (WindowModel, Seq<ViewAction>) {
    chain(st, when_down(key_down(k, code), st.0, key_step(code, st.0)))
}

/// One frame of keyboard input on a window, in the order the editor handles it: typed
/// characters, backspace, enter, up, left, down, right, tab. Returns the window after the
/// frame and the view actions, in order.
pub open spec fn frame_update(
    m: WindowModel,
    keys: Seq<(u32, char, char)>,
    k: &KeyState,
) -> (WindowModel, Seq<ViewAction>) {
    let s1 = typed(m, typed_chars(keys, k));
    let s2 = then_key(s1, k, SCAN_BACKSPACE);
    let s3 = then_key(s2, k, SCAN_ENTER);
    let s4 = then_key(s3, k, SCAN_UP);
    let s5 = then_key(s4, k, SCAN_LEFT);
    let s6 = then_key(s5, k, SCAN_DOWN);
    let s7 = then_key(s6, k, SCAN_RIGHT);
    then_key(s7, k, SCAN_TAB)
}

fn run_key(w: &mut TextWindow, kbd: &KeyState, code: u32, actions: &mut Vec<ViewAction>)
    requires
        on_line(old(w)@),
        code != SCAN_TAB ==> cursor_sane(old(w)@),
        key_down(kbd, code) ==> !key_faults(code, old(w)@),
    ensures
        on_line(final(w)@),
        cursor_sane(old(w)@) && code != SCAN_RIGHT ==> cursor_sane(final(w)@),
        (final(w)@, final(actions)@) == then_key((old(w)@, old(actions)@), kbd, code),
{
    let ghost m = w@;
    let ghost a = actions@;
    if kbd.is_down(code) {
        if code == SCAN_BACKSPACE {
            w.backspace(actions);
        } else if code == SCAN_ENTER {
            w.enter(actions);
        } else if code == SCAN_UP {
            w.move_up();
            actions.push(ViewAction::FollowCursor { x: w.cursor_x, y: w.cursor_y });
        } else if code == SCAN_LEFT {
            w.move_left();
            actions.push(ViewAction::FollowCursor { x: w.cursor_x, y: w.cursor_y });
        } else if code == SCAN_DOWN {
            w.move_down();
            actions.push(ViewAction::FollowCursor { x: w.cursor_x, y: w.cursor_y });
        } else if code == SCAN_RIGHT {
            w.move_right();
            actions.push(ViewAction::FollowCursor { x: w.cursor_x, y: w.cursor_y });
        } else if code == SCAN_TAB {
            w.tab();
            actions.push(ViewAction::FollowCursor { x: w.cursor_x, y: w.cursor_y });
        }
        proof {
            assert(actions@ =~= a + key_step(code, m).1);
        }
    } else {
        proof {
            assert(actions@ =~= a + Seq::<ViewAction>::empty());
        }
    }
}

/// The step of key `code` faults on window `m`: backspace (see [`backspace_faults`]), enter
/// (see [`enter_faults`]), or tab inserting where no character starts.
pub open spec fn key_faults(code: u32, m: WindowModel) -> bool {
    if code == SCAN_BACKSPACE {
        backspace_faults(m)
    } else if code == SCAN_ENTER {
        enter_faults(m)
    } else if code == SCAN_TAB {
        !at_boundary(m)
    } else {
        false
    }
}

/// Some step of the frame faults on the window as the earlier steps left it.
pub open spec fn frame_faults(m: WindowModel, keys: Seq<(u32, char, char)>, k: &KeyState) -> bool {
    let s1 = typed(m, typed_chars(keys, k));
    let s2 = then_key(s1, k, SCAN_BACKSPACE);
    let s3 = then_key(s2, k, SCAN_ENTER);
    let s4 = then_key(s3, k, SCAN_UP);
    let s5 = then_key(s4, k, SCAN_LEFT);
    let s6 = then_key(s5, k, SCAN_DOWN);
    let s7 = then_key(s6, k, SCAN_RIGHT);
    ||| key_down(k, SCAN_BACKSPACE) && key_faults(SCAN_BACKSPACE, s1.0)
    ||| key_down(k, SCAN_ENTER) && key_faults(SCAN_ENTER, s2.0)
    ||| key_down(k, SCAN_TAB) && key_faults(SCAN_TAB, s7.0)
}

/// The result of a click on the explorer: the walk finished, naming the file opened last if
/// any; or an entry must be listed first.
pub enum ClickStep {
    Finished(Option<String>),
    NeedListing(String),
}

impl Editor {
    /// The editor in use: a window exists at `curr_window` and its cursor stands where text
    /// can be inserted (see [`at_boundary`]).
    pub open spec fn ready(&self) -> bool {
        &&& self.curr_window < self.windows@.len()
        &&& at_boundary(self.windows@[self.curr_window as int]@)
    }

    /// The model of the window in use.
    pub open spec fn current(&self) -> WindowModel {
        self.windows@[self.curr_window as int]@
    }

    /// An editor with one window, the standard key bindings and the given explorer entries.
    pub fn new(text_window: TextWindow, top_level_directory: Vec<DirectoryNode>) -> (e: Editor)
        ensures
            e.windows@ == seq![text_window],
            e.curr_window == 0,
            e.keys_to_check@ == key_table(),
            e.top_level_directory == top_level_directory,
    {
        let mut windows = Vec::new();
        windows.push(text_window);
        Editor { windows, curr_window: 0, keys_to_check: default_key_table(), top_level_directory }
    }

    /// The window in use.
    pub fn win(&self) -> (w: &TextWindow)
        requires
            self.curr_window < self.windows@.len(),
        ensures
            *w == self.windows@[self.curr_window as int],
    {
        &self.windows[self.curr_window]
    }

    /// The line under the cursor of the window in use.
    pub fn lnr(&self) -> (l: &String)
        requires
            self.curr_window < self.windows@.len(),
            self.win_y() < self.windows@[self.curr_window as int].lines@.len(),
        ensures
            encode_utf8(l@) == self.current().lines[self.current().y],
    {
        let w = &self.windows[self.curr_window];
        &w.lines[w.cursor_y]
    }

    /// The cursor line of the window in use.
    pub open spec fn win_y(&self) -> int {
        self.windows@[self.curr_window as int].cursor_y as int
    }

    /// Whether the editor is in use (see [`Editor::ready`]).
    pub fn is_ready(&self) -> (b: bool)
        ensures
            b == self.ready(),
    {
        if self.curr_window < self.windows.len() {
            let w = &self.windows[self.curr_window];
            if w.cursor_y < w.lines.len() {
                assert(w@.lines[w.cursor_y as int] == encode_utf8(w.lines@[w.cursor_y as int]@));
                w.lines[w.cursor_y].as_str().is_char_boundary(w.cursor_x)
            } else {
                false
            }
        } else {
            false
        }
    }

    /// The characters typed this frame (see [`typed_chars`]).
    pub fn get_pressed_keys(&self, kbd: &KeyState) -> (r: String)
        ensures
            r@ == typed_chars(self.keys_to_check@, kbd),
    {
        pressed_keys(&self.keys_to_check, kbd)
    }

    /// Removes the character before the cursor of the window in use (see
    /// [`TextWindow::remove_at_cursor`]).
    pub fn remove_at_cursor(&mut self) -> (c: Option<char>)
        requires
            old(self).curr_window < old(self).windows@.len(),
            on_line(old(self).current()),
            !remove_faults(old(self).current()),
        ensures
            c == removed_char(old(self).current()),
            final(self).windows@.len() == old(self).windows@.len(),
            final(self).current() == after_remove(old(self).current()),
            forall|i: int| 0 <= i < old(self).windows@.len() && i != old(self).curr_window ==>
                final(self).windows@[i] == old(self).windows@[i],
            final(self).curr_window == old(self).curr_window,
            final(self).keys_to_check == old(self).keys_to_check,
            final(self).top_level_directory == old(self).top_level_directory,
    {
        let i = self.curr_window;
        let mut w = TextWindow::new(Vec::new());
        self.windows.set_and_swap(i, &mut w);
        let c = w.remove_at_cursor();
        self.windows.set_and_swap(i, &mut w);
        c
    }

    /// Handles one frame of keyboard input on the window in use (see [`frame_update`]) and
    /// returns what the view must do, in order.
    pub fn update(&mut self, kbd: &KeyState) -> (actions: Vec<ViewAction>)
        requires
            old(self).ready(),
            !frame_faults(old(self).current(), old(self).keys_to_check@, kbd),
        ensures
            final(self).curr_window < final(self).windows@.len(),
            on_line(final(self).current()),
            final(self).windows@.len() == old(self).windows@.len(),
            final(self).current() == frame_update(old(self).current(), old(self).keys_to_check@, kbd).0,
            actions@ == frame_update(old(self).current(), old(self).keys_to_check@, kbd).1,
            forall|i: int| 0 <= i < old(self).windows@.len() && i != old(self).curr_window ==>
                final(self).windows@[i] == old(self).windows@[i],
            final(self).curr_window == old(self).curr_window,
            final(self).keys_to_check == old(self).keys_to_check,
            final(self).top_level_directory == old(self).top_level_directory,
    {
        let ghost m = self.current();
        let ghost keys = self.keys_to_check@;
        let key_string = self.get_pressed_keys(kbd);
        let i = self.curr_window;
        let mut w = TextWindow::new(Vec::new());
        self.windows.set_and_swap(i, &mut w);
        let mut actions: Vec<ViewAction> = Vec::new();

        w.insert_str_at_cursor(key_string.as_str());
        if !key_string.as_str().is_empty() {
            actions.push(ViewAction::FollowCursor { x: w.cursor_x, y: w.cursor_y });
        }
        proof {
            let s1 = typed(m, typed_chars(keys, kbd));
            assert(w@ == s1.0);
            assert(actions@ =~= s1.1);
        }
        run_key(&mut w, kbd, SCAN_BACKSPACE, &mut actions);
        run_key(&mut w, kbd, SCAN_ENTER, &mut actions);
        run_key(&mut w, kbd, SCAN_UP, &mut actions);
        run_key(&mut w, kbd, SCAN_LEFT, &mut actions);
        run_key(&mut w, kbd, SCAN_DOWN, &mut actions);
        run_key(&mut w, kbd, SCAN_RIGHT, &mut actions);
        run_key(&mut w, kbd, SCAN_TAB, &mut actions);
        self.windows.set_and_swap(i, &mut w);
        actions
    }

    /// Whether some step of one frame of input would fault (see [`frame_faults`]).
    pub fn update_would_fault(&self, kbd: &KeyState) -> (b: bool)
        requires
            self.ready(),
        ensures
            b == frame_faults(self.current(), self.keys_to_check@, kbd),
    {
        let ghost m = self.current();
        let ghost keys = self.keys_to_check@;
        let key_string = self.get_pressed_keys(kbd);
        let mut w = self.windows[self.curr_window].duplicate();
        let mut actions: Vec<ViewAction> = Vec::new();
        w.insert_str_at_cursor(key_string.as_str());
        if !key_string.as_str().is_empty() {
            actions.push(ViewAction::FollowCursor { x: w.cursor_x, y: w.cursor_y });
        }
        proof {
            let s1 = typed(m, typed_chars(keys, kbd));
            assert(actions@ =~= s1.1);
        }
        if kbd.is_down(SCAN_BACKSPACE) && w.backspace_would_fault() {
            return true;
        }
        run_key(&mut w, kbd, SCAN_BACKSPACE, &mut actions);
        if kbd.is_down(SCAN_ENTER) && w.enter_would_fault() {
            return true;
        }
        run_key(&mut w, kbd, SCAN_ENTER, &mut actions);
        run_key(&mut w, kbd, SCAN_UP, &mut actions);
        run_key(&mut w, kbd, SCAN_LEFT, &mut actions);
        run_key(&mut w, kbd, SCAN_DOWN, &mut actions);
        run_key(&mut w, kbd, SCAN_RIGHT, &mut actions);
        kbd.is_down(SCAN_TAB) && !w.is_at_boundary()
    }

    /// Replaces the text of the window in use with the lines of `text` (see
    /// [`split_lines`]); its cursor is left where it was.
    pub fn load_file_text(&mut self, text: &str)
        requires
            old(self).curr_window < old(self).windows@.len(),
        ensures
            final(self).windows@.len() == old(self).windows@.len(),
            final(self).current().lines == encoded(split_lines(text@)),
            final(self).current().x == old(self).current().x,
            final(self).current().y == old(self).current().y,
            forall|i: int| 0 <= i < old(self).windows@.len() && i != old(self).curr_window ==>
                final(self).windows@[i] == old(self).windows@[i],
            final(self).curr_window == old(self).curr_window,
            final(self).keys_to_check == old(self).keys_to_check,
            final(self).top_level_directory == old(self).top_level_directory,
    {
        let i = self.curr_window;
        let mut w = TextWindow::new(Vec::new());
        self.windows.set_and_swap(i, &mut w);
        w.load_text(text);
        self.windows.set_and_swap(i, &mut w);
    }

    /// Whether the explorer tree is small enough to number its rows.
    pub fn explorer_fits(&self) -> (b: bool)
        ensures
            b == (forest_size(nodes_model(self.top_level_directory@)) <= usize::MAX),
    {
        count_entries(&self.top_level_directory).is_some()
    }

    /// The rows of the explorer, in drawing order (see [`layout_forest`]).
    pub fn explorer_rows(&self) -> (rows: Vec<LayoutRow>)
        requires
            forest_size(nodes_model(self.top_level_directory@)) <= usize::MAX,
        ensures
            rows_model(rows@) == layout_forest(nodes_model(self.top_level_directory@), 0),
    {
        directory_layout(&self.top_level_directory)
    }

    /// Walks the explorer for a click (see [`recurse_click_check_direc`]). When the walk
    /// finishes, the explorer takes the new entries and the file opened last is returned;
    /// when an entry must be listed first, nothing changes.
    pub fn click_explorer(
        &mut self,
        hits: &Vec<bool>,
        fresh_hit: bool,
        listings: &Vec<Option<Vec<DirectoryNode>>>,
    ) -> (r: ClickStep)
        requires
            forest_size(nodes_model(old(self).top_level_directory@)) <= usize::MAX,
        ensures
            ({
                let w = walk_forest(
                    click_input(hits@, fresh_hit, listings@),
                    nodes_model(old(self).top_level_directory@),
                    0,
                    false,
                    0,
                );
                match r {
                    ClickStep::Finished(f) => w matches Walked::Done(ns, g, _) && nodes_model(
                        final(self).top_level_directory@,
                    ) == ns && found_model(f) == g,
                    ClickStep::NeedListing(p) => w == Walked::Need(p@)
                        && final(self).top_level_directory == old(self).top_level_directory,
                }
            }),
            final(self).windows == old(self).windows,
            final(self).curr_window == old(self).curr_window,
            final(self).keys_to_check == old(self).keys_to_check,
    {
        match recurse_click_check_direc(&self.top_level_directory, hits, fresh_hit, listings) {
            ClickOutcome::Done { nodes, found, used: _ } => {
                self.top_level_directory = nodes;
                ClickStep::Finished(found)
            },
            ClickOutcome::NeedListing { path } => ClickStep::NeedListing(path),
        }
    }

    /// The lines `lower` to `upper` (both included) of the window in use.
    pub fn bounded_lines(&self, lower: usize, upper: usize) -> (ls: &[String])
        requires
            self.curr_window < self.windows@.len(),
            lower <= upper + 1,
            upper < self.windows@[self.curr_window as int].lines@.len(),
        ensures
            ls@ == self.windows@[self.curr_window as int].lines@.subrange(lower as int, upper + 1),
    {
        let w = &self.windows[self.curr_window];
        let n = w.lines.len();
        assert(upper < n);
        vstd::slice::slice_subrange(w.lines.as_slice(), lower, upper + 1)
    }
}

} // verus!
