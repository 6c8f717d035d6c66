//! The ways in which building or combining values can fail.

use vstd::prelude::*;

verus! {

/// A value offered for a field element was not below the modulus.
#[derive(Debug, Clone, Copy, PartialEq, Eq, Structural)]
pub struct RangeError;

/// Two field elements of different moduli met in one operation.
#[derive(Debug, Clone, Copy, PartialEq, Eq, Structural)]
pub struct ModulusMismatch;

/// A coordinate pair does not satisfy the equation of the curve it was
/// offered for.
#[derive(Debug, Clone, Copy, PartialEq, Eq, Structural)]
pub struct NotOnCurveError;

/// Two points cannot be added: they lie on different curves, or the line
/// through them has no slope in the coordinates' ring.
#[derive(Debug, Clone, Copy, PartialEq, Eq, Structural)]
pub struct CurveMismatchError;

} // verus!
