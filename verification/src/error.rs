use vstd::prelude::*;

verus! {

/// The ways in which a tensor operation can refuse its operands.
#[derive(Clone, Copy, Debug, PartialEq, Eq, Structural)]
pub enum TensorError {
    /// The operand shapes do not fit the operation.
    ShapeMismatch,
    /// The head counts and dimensions of a module do not fit together.
    ConfigurationInvalid,
    /// A token id or a position lies outside the range it indexes.
    IndexOutOfRange,
}

} // verus!
