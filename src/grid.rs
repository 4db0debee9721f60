use vstd::prelude::*;

use crate::error::SolverError;
use crate::scalar::Scalar;
use crate::tridiagonal::{pivots_ok, solve_tridiagonal, thomas};

verus! {

/// The grid after a step: the fixed left value, the solution of the
/// system, the fixed right value.
pub open spec fn restamped<T>(left: T, interior: Seq<T>, right: T) -> Seq<T> {
    seq![left] + interior + seq![right]
}

/// The interior samples of a grid: all but the two ends.
pub open spec fn interior<T>(grid: Seq<T>) -> Seq<T> {
    grid.subrange(1, grid.len() - 1)
}

/// A vector of `n` copies of `v`.
pub fn filled<T: Copy>(n: usize, v: T) -> (r: Vec<T>)
    ensures
        r@ == Seq::new(n as nat, |_i: int| v),
{
    let mut r: Vec<T> = Vec::new();
    let mut i: usize = 0;
    while i < n
        invariant
            i <= n,
            r@ == Seq::new(i as nat, |_j: int| v),
        decreases n - i,
    {
        r.push(v);
        i = i + 1;
        assert(r@ =~= Seq::new(i as nat, |_j: int| v));
    }
    r
}

/// The grid before the first step: `points + 1` samples, all `cold` (the
/// rod's initial temperature, zero in the heat problem) but the last, which
/// holds the right boundary temperature.
pub fn initial_grid<T: Copy>(points: usize, cold: T, temperature: T) -> (r: Vec<T>)
    requires
        points < usize::MAX,
    ensures
        r.len() == points + 1,
        r[points as int] == temperature,
        forall|i: int| 0 <= i < points ==> r[i] == cold,
{
    let mut r = filled(points + 1, cold);
    r.set(points, temperature);
    r
}

/// Copies the interior of `grid` (indices `1 .. grid.len() - 1`) into `d`.
pub fn load_interior<T: Copy>(grid: &Vec<T>, d: &mut Vec<T>)
    requires
        old(d).len() + 2 == grid.len(),
    ensures
        final(d)@ == interior(grid@),
{
    let n = d.len();
    let mut i: usize = 0;
    while i < n
        invariant
            n + 2 == grid.len(),
            d.len() == n,
            i <= n,
            forall|j: int| 0 <= j < i ==> d[j] == grid[j + 1],
        decreases n - i,
    {
        d.set(i, grid[i + 1]);
        i = i + 1;
    }
    assert(d@ =~= interior(grid@));
}

/// Writes `solution` into the interior of `grid` and sets its two ends to
/// the fixed boundary values `left` and `right`.
pub fn store_interior<T: Copy>(solution: &Vec<T>, grid: &mut Vec<T>, left: T, right: T)
    requires
        old(grid).len() == solution.len() + 2,
    ensures
        final(grid)@ == restamped(left, solution@, right),
{
    let n = solution.len();
    let mut i: usize = 0;
    while i < n
        invariant
            grid.len() == n + 2,
            solution.len() == n,
            i <= n,
            forall|j: int| 0 <= j < i ==> grid[j + 1] == solution[j],
        decreases n - i,
    {
        grid.set(i + 1, solution[i]);
        i = i + 1;
    }
    grid.set(0, left);
    grid.set(n + 1, right);
    assert(grid@ =~= restamped(left, solution@, right));
}

/// The three diagonals of a tridiagonal matrix, all of one length.
pub struct TridiagonalSystem<T> {
    pub lower: Vec<T>,
    pub diagonal: Vec<T>,
    pub upper: Vec<T>,
}

/// The off-diagonal coefficient of the heat scheme, `-alpha`.
pub open spec fn heat_off<T: Scalar>(alpha: T) -> T {
    alpha.spec_negate()
}

/// The diagonal coefficient of the heat scheme, `1 + 2 alpha`.
pub open spec fn heat_diag<T: Scalar>(alpha: T) -> T {
    T::spec_one().spec_plus(alpha.spec_plus(alpha))
}

/// `n` copies of [`heat_off`].
pub open spec fn heat_offs<T: Scalar>(alpha: T, n: int) -> Seq<T> {
    Seq::new(n as nat, |_i: int| heat_off(alpha))
}

/// `n` copies of [`heat_diag`].
pub open spec fn heat_diags<T: Scalar>(alpha: T, n: int) -> Seq<T> {
    Seq::new(n as nat, |_i: int| heat_diag(alpha))
}

impl<T: Scalar> TridiagonalSystem<T> {
    pub open spec fn wf(&self) -> bool {
        self.lower.len() == self.diagonal.len() && self.upper.len() == self.diagonal.len()
    }

    pub open spec fn size(&self) -> int {
        self.diagonal.len() as int
    }

    /// Every pivot of the elimination is non-zero.
    pub open spec fn solvable(&self) -> bool {
        pivots_ok(self.lower@, self.diagonal@, self.upper@, self.size())
    }

    /// The Thomas solution of the system for the right-hand side `d`.
    pub open spec fn solution(&self, d: Seq<T>) -> Seq<T> {
        thomas(self.lower@, self.diagonal@, self.upper@, d)
    }

    /// Whether this is the heat-scheme matrix of `alpha` on `n` unknowns.
    pub open spec fn is_heat(&self, alpha: T, n: int) -> bool {
        &&& self.lower@ == heat_offs(alpha, n)
        &&& self.upper@ == heat_offs(alpha, n)
        &&& self.diagonal@ == heat_diags(alpha, n)
    }

    /// The matrix of the implicit heat scheme on `n` unknowns: `-alpha` off
    /// the diagonal and `1 + 2 alpha` on it, the same in every row.
    pub fn for_heat(alpha: T, n: usize) -> (r: Self)
        ensures
            r.wf(),
            r.size() == n,
            r.is_heat(alpha, n as int),
    {
        let off = alpha.negate();
        let diag = T::one().plus(alpha.plus(alpha));
        TridiagonalSystem { lower: filled(n, off), diagonal: filled(n, diag), upper: filled(n, off) }
    }
}

/// The right-hand side of a step: the interior samples, the first raised by
/// `alpha` times the left value and then the last by `alpha` times the
/// right value.
pub open spec fn heat_rhs<T: Scalar>(inner: Seq<T>, alpha: T, left: T, right: T) -> Seq<T> {
    let d1 = inner.update(0, inner[0].spec_plus(alpha.spec_times(left)));
    d1.update(d1.len() - 1, d1[d1.len() - 1].spec_plus(alpha.spec_times(right)))
}

/// The grid after one implicit step with the matrix of diagonals `lower`,
/// `diag` and `upper`: the ends set to `left` and `right`, the interior the
/// Thomas solution for [`heat_rhs`].
pub open spec fn step_spec<T: Scalar>(
    lower: Seq<T>,
    diag: Seq<T>,
    upper: Seq<T>,
    grid: Seq<T>,
    alpha: T,
    left: T,
    right: T,
) -> Seq<T> {
    restamped(left, thomas(lower, diag, upper, heat_rhs(interior(grid), alpha, left, right)), right)
}

/// One implicit time step on a whole grid: the interior becomes the right-hand
/// side, the boundary neighbours add `alpha` times the fixed end values to its
/// first and last entries, the system is solved, and the solution goes back
/// into the interior with the ends set to `left` (zero in the heat problem)
/// and `right` (the boundary temperature).
///
/// Succeeds exactly when the system is solvable. On a zero pivot the grid is
/// left as it was: no step is half done.
pub fn advance<T: Scalar>(grid: &mut Vec<T>, system: &TridiagonalSystem<T>, alpha: T, left: T, right: T) -> (r: Result<(), SolverError>)
    requires
        system.wf(),
        old(grid).len() == system.size() + 2,
        system.size() >= 1,
    ensures
        r is Ok <==> system.solvable(),
        r is Err ==> r == Err::<(), SolverError>(SolverError::ZeroPivot) && final(grid)@ == old(grid)@,
        r is Ok ==> final(grid)@ == step_spec(system.lower@, system.diagonal@, system.upper@, old(grid)@, alpha, left, right),
        r is Ok ==> final(grid).len() == old(grid).len() && final(grid)[0] == left && final(grid)[final(grid).len() - 1] == right,
{
    let n = system.diagonal.len();
    let mut d = filled(n, left);
    load_interior(grid, &mut d);
    let first = d[0].plus(alpha.times(left));
    d.set(0, first);
    let last = d[n - 1].plus(alpha.times(right));
    d.set(n - 1, last);
    assert(d@ =~= heat_rhs(interior(grid@), alpha, left, right));
    match solve_tridiagonal(&system.lower, &system.diagonal, &system.upper, &mut d) {
        Ok(()) => {
            store_interior(&d, grid, left, right);
            Ok(())
        },
        Err(e) => Err(e),
    }
}

} // verus!
