use vstd::prelude::*;

use crate::error::SolverError;
use crate::scalar::Scalar;
use crate::solver::{solve, solve_outcome, SolverKind};

verus! {

/// The reference solver: one global tridiagonal system solved on the
/// calling thread at every step (see [`crate::solver::solve`]).
pub fn solve_heat_equation<T: Scalar>(length: T, temperature: T, points: usize, dt: T, time_steps: usize) -> (r: Result<Vec<T>, SolverError>)
    ensures
        solve_outcome(length, temperature, points, dt, time_steps, r),
{
    solve(SolverKind::Sequential, length, temperature, points, dt, time_steps)
}

} // verus!
