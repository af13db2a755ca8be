//! Keeps the operand traits of expressions to the types of this library.
use vstd::prelude::*;

verus! {

/// Implemented for the types that an operand trait can be implemented for.
pub trait Sealed {

}

}
