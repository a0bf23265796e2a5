//! Core of a live console logger: a bounded scrolling tail of lines, the
//! terminal repaint plans that draw it, the decisions of the remote-console
//! event loop, the stripping of terminal escape sequences before lines are
//! persisted, and the choice of a fresh log file name.
use vstd::prelude::*;

pub mod sanitize;
pub mod console;
pub mod naming;
pub mod render;
pub mod scroll;

verus! {

} // verus!
