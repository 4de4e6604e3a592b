//! Plain option values captured once from user input and immutable thereafter.

use vstd::prelude::*;

verus! {

/// Whether generation may overwrite files that already exist.
#[derive(Clone, Copy, Debug, PartialEq, Eq, Structural)]
pub enum Clobbering {
    Forbid,
    Allow,
}

/// What to do with the project directory once generation has succeeded.
#[derive(Clone, Copy, Debug, PartialEq, Eq, Structural)]
pub enum OpenIn {
    Nothing,
    Editor,
}

} // verus!
