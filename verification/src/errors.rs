//! Error taxonomy for witness generation, synthesis and the driver loop.

use vstd::prelude::*;

verus! {

/// Every failure this library can report.
///
/// - `WitnessError`: the native fifth-power self-check failed, which means the
///   fifth-root exponent or the field parameters are wrong; fatal.
/// - `ArityMismatch`: a state vector's length disagrees with the circuit's
///   arity at initialization or at a step boundary; caught at the interface.
/// - `ConstraintError`: constraint synthesis was handed advice that does not
///   belong to the state being extended; aborts the current step.
/// - `FoldError`: the external folding backend rejected a step; the chain must
///   not be advanced further.
#[derive(Clone, Copy, PartialEq, Eq, Structural, Debug)]
pub enum IvcError {
    WitnessError,
    ArityMismatch,
    ConstraintError,
    FoldError,
}

} // verus!
