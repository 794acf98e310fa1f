//! Text properties.

use vstd::prelude::*;

pub mod font;
pub mod registry;
pub mod system;

verus! {

/// CSS `text-align`.
#[derive(Debug, Clone, Copy, PartialEq, Eq, Structural)]
pub enum Align {
    Left,
    Right,
    Center,
    Justify,
}

/// CSS `white-space`, as far as it bears on breaking.
#[derive(Debug, Clone, Copy, PartialEq, Eq, Structural)]
pub enum WhiteSpace {
    Normal,
    NoWrap,
    Pre,
}

} // verus!
