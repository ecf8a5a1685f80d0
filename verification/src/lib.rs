//! The editing core of a small text editor with a file explorer: the text
//! buffer and its cursor, the keyboard decisions taken every frame, the
//! directory tree of the explorer and the labels that the window shows.
//! Drawing, file reading and window geometry live with the caller.

pub mod strings;
pub mod text;
pub mod keys;
pub mod paths;
pub mod explorer;
pub mod editor;
pub mod laws;
pub mod frame_laws;
