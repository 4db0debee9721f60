use vstd::prelude::*;

use rayon::iter::{IndexedParallelIterator, IntoParallelRefIterator, IntoParallelRefMutIterator, ParallelIterator};

use crate::error::SolverError;
use crate::grid::{filled, heat_rhs, interior, step_spec, TridiagonalSystem};
use crate::scalar::Scalar;
use crate::solver::{solve, solve_outcome, SolverKind};
use crate::tridiagonal::solve_tridiagonal;

verus! {

/// `dst` with the `count` samples from `dst_from` on replaced by those of
/// `src` from `src_from` on.
pub open spec fn with_window<T>(dst: Seq<T>, dst_from: int, src: Seq<T>, src_from: int, count: int) -> Seq<T> {
    dst.subrange(0, dst_from) + src.subrange(src_from, src_from + count) + dst.subrange(dst_from + count, dst.len() as int)
}

/// Relies on rayon's `par_iter_mut`, `par_iter`, `skip`, `take`, `zip` and
/// `for_each`: the pairs `(dst[dst_from + j], src[src_from + j])` for
/// `j < count` are each visited once, by the thread pool, and the closure
/// copies the second into the first. No other sample of `dst` is touched.
#[verifier::external_body]
fn par_copy_window<T: Copy + Send + Sync>(src: &Vec<T>, src_from: usize, dst: &mut Vec<T>, dst_from: usize, count: usize)
    requires
        src_from + count <= src.len(),
        dst_from + count <= old(dst).len(),
    ensures
        final(dst)@ == with_window(old(dst)@, dst_from as int, src@, src_from as int, count as int),
{
    dst.par_iter_mut().skip(dst_from).take(count).zip(src.par_iter().skip(src_from)).for_each(|(x, y)| *x = *y);
}

/// One time step with the same recipe as [`crate::grid::advance`], and the
/// same result, the copies between the grid and the right-hand side being
/// spread over rayon's thread pool; each thread writes a disjoint set of
/// samples, and the solve in between stays sequential.
pub fn advance_parallel<T: Scalar>(grid: &mut Vec<T>, system: &TridiagonalSystem<T>, alpha: T, left: T, right: T) -> (r: Result<(), SolverError>)
    requires
        system.wf(),
        old(grid).len() == system.size() + 2,
        system.size() >= 1,
    ensures
        r is Ok <==> system.solvable(),
        r is Err ==> r == Err::<(), SolverError>(SolverError::ZeroPivot) && final(grid)@ == old(grid)@,
        r is Ok ==> final(grid)@ == step_spec(system.lower@, system.diagonal@, system.upper@, old(grid)@, alpha, left, right),
        r is Ok ==> final(grid).len() == old(grid).len() && final(grid)[0] == left && final(grid)[final(grid).len() - 1] == right,
{
    let n = system.diagonal.len();
    let mut d = filled(n, left);
    par_copy_window(grid, 1, &mut d, 0, n);
    assert(d@ =~= interior(grid@));
    let first = d[0].plus(alpha.times(left));
    d.set(0, first);
    let last = d[n - 1].plus(alpha.times(right));
    d.set(n - 1, last);
    assert(d@ =~= heat_rhs(interior(grid@), alpha, left, right));
    match solve_tridiagonal(&system.lower, &system.diagonal, &system.upper, &mut d) {
        Ok(()) => {
            par_copy_window(&d, 0, grid, 1, n);
            grid.set(0, left);
            grid.set(n + 1, right);
            assert(grid@ =~= step_spec(system.lower@, system.diagonal@, system.upper@, old(grid)@, alpha, left, right));
            Ok(())
        },
        Err(e) => Err(e),
    }
}

/// The shared-memory solver: the recipe, and the result, of
/// [`crate::sequential::solve_heat_equation`], each step a fork-join round
/// over rayon's thread pool (see [`advance_parallel`]).
pub fn solve_heat_equation<T: Scalar>(length: T, temperature: T, points: usize, dt: T, time_steps: usize) -> (r: Result<Vec<T>, SolverError>)
    ensures
        solve_outcome(length, temperature, points, dt, time_steps, r),
{
    solve(SolverKind::SharedMemory, length, temperature, points, dt, time_steps)
}

} // verus!
