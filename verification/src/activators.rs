use vstd::prelude::*;

verus! {

/// Which activation function a network applies in its hidden layers.
/// The numeric functions themselves act on floating-point signals and
/// live with the caller; the selector is carried by every genome so
/// that a child copies its first parent's choice.
#[derive(Clone, Copy, PartialEq, Eq, Structural, Debug)]
pub enum Type {
    Sigmoid,
    Tanh,
    Relu,
    Custom,
}

} // verus!
