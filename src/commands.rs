use vstd::prelude::*;

verus! {

/// A marker for the components that own a part of the editor's state.
pub trait Manager {}

/// A command that acts on the scene's objects.
#[derive(Debug, Clone, Copy, PartialEq, Eq, Structural)]
pub struct ObjectCommand;

impl ObjectCommand {
    pub fn new() -> (r: Self)
        ensures
            r == ObjectCommand,
    {
        ObjectCommand
    }
}

} // verus!
