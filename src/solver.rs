use vstd::prelude::*;

use crate::error::SolverError;
use crate::grid::{advance, heat_diags, heat_offs, heat_rhs, initial_grid, interior, step_spec, TridiagonalSystem};
use crate::tridiagonal::{pivots_ok, thomas};
use crate::partition::ConfigError;
use crate::scalar::Scalar;
use crate::shared_memory::advance_parallel;

verus! {

/// The single-process ways of running the time steps.
#[derive(Clone, Copy, Debug, PartialEq, Eq, Structural)]
pub enum SolverKind {
    /// Every step on the calling thread.
    Sequential,
    /// The copies of every step spread over a thread pool.
    SharedMemory,
}

/// The squared grid spacing `(length / points)^2`.
pub open spec fn spacing_squared<T: Scalar>(length: T, points: usize) -> T {
    let dx = length.spec_divide(T::spec_from_count(points));
    dx.spec_times(dx)
}

/// The diffusion number `dt / dx^2`, or why it is not defined, checked in
/// this order: fewer than two intervals, a length or a time step that is not
/// positive, a spacing whose square is zero.
pub open spec fn diffusion_result<T: Scalar>(length: T, points: usize, dt: T) -> Result<T, ConfigError> {
    if points < 2 {
        Err(ConfigError::TooFewPoints)
    } else if !length.spec_is_positive() {
        Err(ConfigError::NonPositiveLength)
    } else if !dt.spec_is_positive() {
        Err(ConfigError::NonPositiveTimeStep)
    } else if spacing_squared(length, points).spec_is_zero() {
        Err(ConfigError::ZeroSpacing)
    } else {
        Ok(dt.spec_divide(spacing_squared(length, points)))
    }
}

/// The diffusion number `alpha = dt / dx^2` of a rod of `length` cut into
/// `points` intervals of width `dx = length / points`.
///
/// Rejects fewer than two intervals, a length or time step that is not
/// positive, and a spacing whose square is zero.
pub fn diffusion_number<T: Scalar>(length: T, points: usize, dt: T) -> (r: Result<T, ConfigError>)
    ensures
        r == diffusion_result(length, points, dt),
        points < 2 ==> r == Err::<T, ConfigError>(ConfigError::TooFewPoints),
{
    if points < 2 {
        return Err(ConfigError::TooFewPoints);
    }
    if !length.is_positive() {
        return Err(ConfigError::NonPositiveLength);
    }
    if !dt.is_positive() {
        return Err(ConfigError::NonPositiveTimeStep);
    }
    let dx = length.divide(T::from_count(points));
    let dx2 = dx.times(dx);
    if dx2.is_zero() {
        return Err(ConfigError::ZeroSpacing);
    }
    Ok(dt.divide(dx2))
}

/// The grid after `k` implicit steps from `grid` (see [`step_spec`]).
pub open spec fn steps_spec<T: Scalar>(
    lower: Seq<T>,
    diag: Seq<T>,
    upper: Seq<T>,
    grid: Seq<T>,
    alpha: T,
    left: T,
    right: T,
    k: nat,
) -> Seq<T>
    decreases k,
{
    if k == 0 {
        grid
    } else {
        step_spec(lower, diag, upper, steps_spec(lower, diag, upper, grid, alpha, left, right, (k - 1) as nat), alpha, left, right)
    }
}

/// After at least one step the ends hold the fixed values `left` and
/// `right`, and the grid keeps its length.
pub proof fn lemma_steps_keep_boundaries<T: Scalar>(
    lower: Seq<T>,
    diag: Seq<T>,
    upper: Seq<T>,
    grid: Seq<T>,
    alpha: T,
    left: T,
    right: T,
    k: nat,
)
    requires
        grid.len() >= 3,
    ensures
        steps_spec(lower, diag, upper, grid, alpha, left, right, k).len() == grid.len(),
        k > 0 ==> steps_spec(lower, diag, upper, grid, alpha, left, right, k)[0] == left,
        k > 0 ==> steps_spec(lower, diag, upper, grid, alpha, left, right, k)[grid.len() - 1] == right,
    decreases k,
{
    if k > 0 {
        lemma_steps_keep_boundaries(lower, diag, upper, grid, alpha, left, right, (k - 1) as nat);
        let prev = steps_spec(lower, diag, upper, grid, alpha, left, right, (k - 1) as nat);
        let rhs = heat_rhs(interior(prev), alpha, left, right);
        assert(thomas(lower, diag, upper, rhs).len() == rhs.len());
    }
}

/// Runs `steps` implicit time steps on `grid`, one [`advance`] (or
/// [`advance_parallel`]) each.
///
/// With no step the grid comes back as it was. Otherwise the run succeeds
/// exactly when the system is solvable, and then returns [`steps_spec`]:
/// the same grid whichever `kind` ran it.
pub fn run_steps<T: Scalar>(
    kind: SolverKind,
    grid: Vec<T>,
    system: &TridiagonalSystem<T>,
    alpha: T,
    left: T,
    right: T,
    steps: usize,
) -> (r: Result<Vec<T>, SolverError>)
    requires
        system.wf(),
        system.size() >= 1,
        grid.len() == system.size() + 2,
    ensures
        r is Ok <==> steps == 0 || system.solvable(),
        r is Err ==> r == Err::<Vec<T>, SolverError>(SolverError::ZeroPivot),
        r is Ok ==> r->Ok_0@ == steps_spec(system.lower@, system.diagonal@, system.upper@, grid@, alpha, left, right, steps as nat),
        r is Ok ==> r->Ok_0.len() == grid.len(),
        r is Ok && steps > 0 ==> r->Ok_0[0] == left && r->Ok_0[grid.len() - 1] == right,
{
    let mut g = grid;
    let mut k: usize = 0;
    while k < steps
        invariant
            system.wf(),
            system.size() >= 1,
            g.len() == system.size() + 2,
            grid.len() == system.size() + 2,
            k <= steps,
            k > 0 ==> system.solvable(),
            g@ == steps_spec(system.lower@, system.diagonal@, system.upper@, grid@, alpha, left, right, k as nat),
        decreases steps - k,
    {
        let step = match kind {
            SolverKind::Sequential => advance(&mut g, system, alpha, left, right),
            SolverKind::SharedMemory => advance_parallel(&mut g, system, alpha, left, right),
        };
        match step {
            Ok(()) => {},
            Err(e) => {
                return Err(e);
            },
        }
        k = k + 1;
    }
    proof {
        lemma_steps_keep_boundaries(system.lower@, system.diagonal@, system.upper@, grid@, alpha, left, right, steps as nat);
    }
    Ok(g)
}

/// The rod before the first step: zero everywhere but the right end.
pub open spec fn initial_spec<T: Scalar>(points: usize, temperature: T) -> Seq<T> {
    Seq::new((points + 1) as nat, |i: int| if i == points { temperature } else { T::spec_zero() })
}

/// What a whole-rod solve returns: a configuration error where the
/// diffusion number is undefined (or the grid could not be indexed), a
/// zero pivot where the heat system is not solvable and a step is asked
/// for, and otherwise the rod after `time_steps` steps from the initial rod,
/// with the left end held at zero and the right end at `temperature`.
pub open spec fn solve_outcome<T: Scalar>(
    length: T,
    temperature: T,
    points: usize,
    dt: T,
    time_steps: usize,
    r: Result<Vec<T>, SolverError>,
) -> bool {
    &&& points < 2 ==> r == Err::<Vec<T>, SolverError>(SolverError::Config(ConfigError::TooFewPoints))
    &&& points == usize::MAX ==> r == Err::<Vec<T>, SolverError>(SolverError::Config(ConfigError::TooManyPoints))
    &&& points < usize::MAX && diffusion_result(length, points, dt) is Err
        ==> r == Err::<Vec<T>, SolverError>(SolverError::Config(diffusion_result(length, points, dt)->Err_0))
    &&& points < usize::MAX && diffusion_result(length, points, dt) is Ok ==> {
        let alpha = diffusion_result(length, points, dt)->Ok_0;
        let n = points - 1;
        &&& (r is Ok <==> time_steps == 0 || pivots_ok(heat_offs(alpha, n), heat_diags(alpha, n), heat_offs(alpha, n), n))
        &&& r is Err ==> r == Err::<Vec<T>, SolverError>(SolverError::ZeroPivot)
        &&& r is Ok ==> r->Ok_0@ == steps_spec(
            heat_offs(alpha, n),
            heat_diags(alpha, n),
            heat_offs(alpha, n),
            initial_spec(points, temperature),
            alpha,
            T::spec_zero(),
            temperature,
            time_steps as nat,
        )
    }
    &&& r is Ok ==> r->Ok_0.len() == points + 1 && r->Ok_0[0] == T::spec_zero() && r->Ok_0[points as int] == temperature
}

/// Solves the heat equation on a rod of `length` with the left end held at
/// zero and the right end at `temperature`, starting from a rod at zero:
/// `points` intervals, `time_steps` implicit steps of `dt`, one global
/// tridiagonal system of `points - 1` unknowns, run as `kind` says.
///
/// Returns the `points + 1` samples after the last step, the same whichever
/// `kind` ran them (see [`solve_outcome`]).
pub fn solve<T: Scalar>(kind: SolverKind, length: T, temperature: T, points: usize, dt: T, time_steps: usize) -> (r: Result<Vec<T>, SolverError>)
    ensures
        solve_outcome(length, temperature, points, dt, time_steps, r),
{
    if points == usize::MAX {
        return Err(SolverError::Config(ConfigError::TooManyPoints));
    }
    let alpha = match diffusion_number(length, points, dt) {
        Ok(a) => a,
        Err(e) => {
            return Err(SolverError::Config(e));
        },
    };
    let zero = T::zero();
    let grid = initial_grid(points, zero, temperature);
    assert(grid@ =~= initial_spec(points, temperature));
    let system = TridiagonalSystem::for_heat(alpha, points - 1);
    let r = run_steps(kind, grid, &system, alpha, zero, temperature, time_steps);
    proof {
        if r is Ok && time_steps == 0 {
            assert(r->Ok_0@[0] == initial_spec::<T>(points, temperature)[0]);
        }
    }
    r
}

/// Any two results that meet [`solve_outcome`] for the same parameters are
/// the same: the sequential and the shared-memory solvers, which both
/// promise it, return the same samples, or fail in the same way.
pub proof fn lemma_solvers_agree<T: Scalar>(
    length: T,
    temperature: T,
    points: usize,
    dt: T,
    time_steps: usize,
    r1: Result<Vec<T>, SolverError>,
    r2: Result<Vec<T>, SolverError>,
)
    requires
        solve_outcome(length, temperature, points, dt, time_steps, r1),
        solve_outcome(length, temperature, points, dt, time_steps, r2),
    ensures
        r1 is Ok <==> r2 is Ok,
        r1 is Ok ==> r1->Ok_0@ == r2->Ok_0@,
        r1 is Err ==> r1 == r2,
{
}

} // verus!
