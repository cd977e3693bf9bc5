use vstd::prelude::*;

verus! {

/// What the text input line is currently used for.
#[derive(Clone, Copy, PartialEq, Eq, Debug, Structural)]
pub enum InputMode {
    View,
    Add,
    Edit,
    Filter,
}

} // verus!
