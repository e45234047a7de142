use vstd::prelude::*;

verus! {

/// The failures this library reports to the caller instead of panicking or
/// letting garbage values propagate. All of them are local, recoverable
/// conditions; the caller decides whether to halt or to skip the affected
/// operation.
#[derive(Clone, Copy, Debug, PartialEq, Eq, Structural)]
pub enum PhysicsError {
    /// A binary vector operation was given vectors of differing length.
    LengthMismatch,
    /// A component index was at or beyond the vector's length, or a force
    /// index was at or beyond the force list's length.
    IndexOutOfRange,
    /// A component-wise or scalar division met a zero divisor.
    DivisionByZero,
    /// A geometric operation (normalization, angle) met a vector of zero
    /// magnitude.
    DegenerateVector,
    /// Deriving an acceleration would divide by a body whose mass is zero.
    ZeroMass,
    /// No body in the world carries the identity of the one to remove.
    NotFound,
}

} // verus!
