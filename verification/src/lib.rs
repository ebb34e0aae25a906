//! A screen-oriented shell for a machine without much memory: four panes on a text
//! display, each with a text editor, a file browser or a running script, one of them with
//! the keyboard. The editor keeps its text in arrays of fixed size; the scripts are
//! advanced one step at a time, in turns, by a scheduler that never blocks.
//!
//! The display, the file system and the interpreter stay outside: the shell hands out the
//! writes to be put on the display and says what it needs of storage and interpreter, and
//! is told what came of it.

pub mod app;
pub mod document;
pub mod editor;
pub mod editor_laws;
pub mod explorer;
pub mod frame;
pub mod grid;
pub mod interface;
pub mod interface_laws;
pub mod screen;
pub mod script;
pub mod script_laws;
pub mod text;
pub mod window;
