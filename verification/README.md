# viogg

A small text editor with a file explorer, built on ggez. The editing core is a
verified library (`src/`); the window, drawing, keyboard and mouse reading and file
access are in `app/main.rs`.

- `src/text.rs`: the text window (lines and cursor) and every editing step
  (typing, backspace, enter, arrows, tab, loading a text), with their models.
- `src/keys.rs`: the key bindings and which characters a frame of keyboard input types.
- `src/editor.rs`: the editor state and one frame of keyboard input, returning what
  the view must scroll.
- `src/explorer.rs`: the explorer tree, its rows and the walk that a click makes
  through it, asking the caller for directory listings as it needs them.
- `src/paths.rs`: entry labels and the working-directory heading.
- `src/laws.rs`: properties that relate several steps (undoing, toggling, misses).
- `src/strings.rs`: string helpers.

Cursor columns count bytes of the UTF-8 text.
