//! Screen state and navigation: what each key does on each screen.

pub mod chrome;
pub mod config;
pub mod results;
pub mod typing;
pub mod weaknesses;

use vstd::prelude::*;

verus! {

/// A key press, as the screens see it.
#[derive(Clone, Copy, PartialEq, Eq, Debug, Structural)]
pub enum Key {
    Char(char),
    Enter,
    Esc,
    Tab,
    BackTab,
    Up,
    Down,
    Left,
    Right,
    Backspace,
    /// Any other key.
    Other,
}

} // verus!
