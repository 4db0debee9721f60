use vstd::prelude::*;

use crate::error::SolverError;
use crate::scalar::Scalar;

verus! {

/// Forward sweep: the elimination coefficient `alpha_i = -c_i / pivot_i`.
pub open spec fn sweep_alpha<T: Scalar>(a: Seq<T>, b: Seq<T>, c: Seq<T>, i: int) -> T
    decreases i,
{
    if i <= 0 {
        c[0].spec_negate().spec_divide(b[0])
    } else {
        c[i].spec_negate().spec_divide(b[i].spec_plus(a[i].spec_times(sweep_alpha(a, b, c, i - 1))))
    }
}

/// Forward sweep: the pivot of row `i`, `b_0` for the first row and
/// `b_i + a_i alpha_{i-1}` after it.
pub open spec fn pivot<T: Scalar>(a: Seq<T>, b: Seq<T>, c: Seq<T>, i: int) -> T {
    if i <= 0 {
        b[0]
    } else {
        b[i].spec_plus(a[i].spec_times(sweep_alpha(a, b, c, i - 1)))
    }
}

/// Forward sweep: `beta_i = (d_i - a_i beta_{i-1}) / pivot_i`.
pub open spec fn sweep_beta<T: Scalar>(a: Seq<T>, b: Seq<T>, c: Seq<T>, d: Seq<T>, i: int) -> T
    decreases i,
{
    if i <= 0 {
        d[0].spec_divide(b[0])
    } else {
        d[i].spec_minus(a[i].spec_times(sweep_beta(a, b, c, d, i - 1))).spec_divide(pivot(a, b, c, i))
    }
}

/// Every pivot of the first `n` rows is non-zero: the elimination is defined.
pub open spec fn pivots_ok<T: Scalar>(a: Seq<T>, b: Seq<T>, c: Seq<T>, n: int) -> bool {
    forall|i: int| 0 <= i < n ==> !(#[trigger] pivot(a, b, c, i)).spec_is_zero()
}

/// Back substitution: `x_{n-1} = beta_{n-1}` and `x_k = alpha_k x_{k+1} + beta_k`.
pub open spec fn back_substitute<T: Scalar>(a: Seq<T>, b: Seq<T>, c: Seq<T>, d: Seq<T>, k: int) -> T
    decreases d.len() - k,
{
    if k >= d.len() - 1 {
        sweep_beta(a, b, c, d, d.len() - 1)
    } else {
        sweep_alpha(a, b, c, k).spec_times(back_substitute(a, b, c, d, k + 1)).spec_plus(sweep_beta(a, b, c, d, k))
    }
}

/// The solution that the Thomas algorithm gives for `A x = d`.
pub open spec fn thomas<T: Scalar>(a: Seq<T>, b: Seq<T>, c: Seq<T>, d: Seq<T>) -> Seq<T> {
    Seq::new(d.len(), |k: int| back_substitute(a, b, c, d, k))
}

/// Solves `A x = d` in place, where `A` is tridiagonal with sub-diagonal
/// `a`, diagonal `b` and super-diagonal `c` (`a[0]` and `c[n - 1]` are not
/// used), by forward elimination and back substitution.
///
/// Succeeds exactly when every pivot is non-zero, and then leaves the
/// Thomas solution in `d`. The forward sweep keeps the elimination
/// coefficients aside and writes nothing to `d`, so a zero pivot leaves `d`
/// as it was and reports `ZeroPivot`.
pub fn solve_tridiagonal<T: Scalar>(a: &Vec<T>, b: &Vec<T>, c: &Vec<T>, d: &mut Vec<T>) -> (r: Result<(), SolverError>)
    requires
        a.len() == old(d).len(),
        b.len() == old(d).len(),
        c.len() == old(d).len(),
    ensures
        final(d).len() == old(d).len(),
        r is Ok <==> pivots_ok(a@, b@, c@, old(d).len() as int),
        r is Ok ==> final(d)@ == thomas(a@, b@, c@, old(d)@),
        r is Err ==> r == Err::<(), SolverError>(SolverError::ZeroPivot) && final(d)@ == old(d)@,
{
    let n = d.len();
    if n == 0 {
        assert(d@ =~= thomas(a@, b@, c@, d@));
        return Ok(());
    }
    let ghost d0 = d@;
    let mut alpha: Vec<T> = Vec::new();
    let mut beta: Vec<T> = Vec::new();
    if b[0].is_zero() {
        assert(pivot(a@, b@, c@, 0).spec_is_zero());
        return Err(SolverError::ZeroPivot);
    }
    alpha.push(c[0].negate().divide(b[0]));
    beta.push(d[0].divide(b[0]));
    let mut i: usize = 1;
    while i < n
        invariant
            1 <= i <= n,
            n == d.len(),
            d@ == d0,
            a.len() == n,
            b.len() == n,
            c.len() == n,
            alpha.len() == i,
            beta.len() == i,
            forall|j: int| 0 <= j < i ==> #[trigger] alpha[j] == sweep_alpha(a@, b@, c@, j),
            forall|j: int| 0 <= j < i ==> #[trigger] beta[j] == sweep_beta(a@, b@, c@, d0, j),
            forall|j: int| 0 <= j < i ==> !(#[trigger] pivot(a@, b@, c@, j)).spec_is_zero(),
        decreases n - i,
    {
        let p = b[i].plus(a[i].times(alpha[i - 1]));
        assert(p == pivot(a@, b@, c@, i as int));
        if p.is_zero() {
            return Err(SolverError::ZeroPivot);
        }
        let next_alpha = c[i].negate().divide(p);
        let next_beta = d[i].minus(a[i].times(beta[i - 1])).divide(p);
        alpha.push(next_alpha);
        beta.push(next_beta);
        i = i + 1;
    }
    d.set(n - 1, beta[n - 1]);
    let mut k: usize = n - 1;
    while k > 0
        invariant
            k < n,
            d.len() == n,
            d0.len() == n,
            a.len() == n,
            b.len() == n,
            c.len() == n,
            alpha.len() == n,
            beta.len() == n,
            forall|j: int| 0 <= j < n ==> #[trigger] alpha[j] == sweep_alpha(a@, b@, c@, j),
            forall|j: int| 0 <= j < n ==> #[trigger] beta[j] == sweep_beta(a@, b@, c@, d0, j),
            forall|j: int| k <= j < n ==> #[trigger] d[j] == back_substitute(a@, b@, c@, d0, j),
        decreases k,
    {
        let x = alpha[k - 1].times(d[k]).plus(beta[k - 1]);
        d.set(k - 1, x);
        k = k - 1;
    }
    assert(d@ =~= thomas(a@, b@, c@, d0));
    Ok(())
}

} // verus!
