use vstd::prelude::*;

verus! {

/// Specifies which learning mode to use when training the network.
#[derive(Debug, Copy, Clone, PartialEq, Eq, Structural)]
pub enum LearningMode {
    /// Train the network incrementally (updates weights after each example).
    Incremental,
}

} // verus!
