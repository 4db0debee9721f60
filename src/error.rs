use vstd::prelude::*;

use crate::partition::ConfigError;

verus! {

/// Why a run produced no result.
#[derive(Clone, Copy, Debug, PartialEq, Eq, Structural)]
pub enum SolverError {
    /// The parameters were rejected before the first step.
    Config(ConfigError),
    /// A pivot of the tridiagonal elimination was zero: the system is not
    /// diagonally dominant.
    ZeroPivot,
    /// A worker failed, or handed back data of the wrong shape.
    Communication,
}

} // verus!
