use heat_solver::distributed::{assemble, exchange_plan, HaloAction, Worker};
use heat_solver::error::SolverError;
use heat_solver::grid::{advance, initial_grid, load_interior, store_interior, TridiagonalSystem};
use heat_solver::partition::{partition_for, ConfigError};
use heat_solver::scalar::Scalar;
use heat_solver::sequential;
use heat_solver::shared_memory;
use heat_solver::shared_memory::advance_parallel;
use heat_solver::solver::{diffusion_number, run_steps, solve, SolverKind};
use heat_solver::tridiagonal::solve_tridiagonal;

#[derive(Clone, Copy, Debug, PartialEq)]
struct F(f64);

impl Scalar for F {
    fn spec_zero() -> F {
        F::zero()
    }

    fn spec_one() -> F {
        F::one()
    }

    fn spec_plus(self, other: F) -> F {
        self.plus(other)
    }

    fn spec_minus(self, other: F) -> F {
        self.minus(other)
    }

    fn spec_times(self, other: F) -> F {
        self.times(other)
    }

    fn spec_divide(self, other: F) -> F {
        self.divide(other)
    }

    fn spec_negate(self) -> F {
        self.negate()
    }

    fn spec_is_zero(self) -> bool {
        self.is_zero()
    }

    fn spec_is_positive(self) -> bool {
        self.is_positive()
    }

    fn spec_from_count(n: usize) -> F {
        F::from_count(n)
    }

    fn zero() -> F {
        F(0.0)
    }
    fn one() -> F {
        F(1.0)
    }
    fn plus(self, other: F) -> F {
        F(self.0 + other.0)
    }
    fn minus(self, other: F) -> F {
        F(self.0 - other.0)
    }
    fn times(self, other: F) -> F {
        F(self.0 * other.0)
    }
    fn divide(self, other: F) -> F {
        F(self.0 / other.0)
    }
    fn negate(self) -> F {
        F(-self.0)
    }
    fn is_zero(self) -> bool {
        self.0 == 0.0
    }
    fn is_positive(self) -> bool {
        self.0 > 0.0
    }
    fn from_count(n: usize) -> F {
        F(n as f64)
    }
}

fn wrap(v: &[f64]) -> Vec<F> {
    v.iter().map(|x| F(*x)).collect()
}

fn unwrap(v: &[F]) -> Vec<f64> {
    v.iter().map(|x| x.0).collect()
}

struct Lcg(u64);

impl Lcg {
    fn next(&mut self) -> f64 {
        self.0 = self.0.wrapping_mul(6364136223846793005).wrapping_add(1442695040888963407);
        ((self.0 >> 11) as f64) / ((1u64 << 53) as f64)
    }
}

#[test]
fn heat_system_of_three_matches_closed_form() {
    let alpha: f64 = 0.01 / (2.5 * 2.5);
    assert!((alpha - 0.0016).abs() < 1e-15);
    let b = 1.0 + 2.0 * alpha;
    let delta = alpha * 100.0;
    let a = wrap(&[-alpha; 3]);
    let bb = wrap(&[b; 3]);
    let c = wrap(&[-alpha; 3]);
    let mut d = wrap(&[0.0, 0.0, delta]);
    assert_eq!(solve_tridiagonal(&a, &bb, &c, &mut d), Ok(()));
    let det = b * b * b - 2.0 * b * alpha * alpha;
    let x = [delta * alpha * alpha / det, delta * alpha * b / det, delta * (b * b - alpha * alpha) / det];
    let got = unwrap(&d);
    for i in 0..3 {
        assert!((got[i] - x[i]).abs() < 1e-15, "{} {} {}", i, got[i], x[i]);
    }
}

#[test]
fn two_by_two_system_is_solved() {
    let mut d = wrap(&[3.0, 3.0]);
    assert_eq!(solve_tridiagonal(&wrap(&[0.0, 1.0]), &wrap(&[2.0, 2.0]), &wrap(&[1.0, 0.0]), &mut d), Ok(()));
    assert_eq!(unwrap(&d), vec![1.0, 1.0]);
}

#[test]
fn too_many_points_is_rejected() {
    assert_eq!(
        sequential::solve_heat_equation(F(1.0), F(1.0), usize::MAX, F(0.1), 1),
        Err(SolverError::Config(ConfigError::TooManyPoints))
    );
    assert_eq!(
        Worker::new(F(1.0), F(1.0), usize::MAX, F(0.1), 2, 0).err(),
        Some(SolverError::Config(ConfigError::TooManyPoints))
    );
}

#[test]
fn single_unknown_is_divided_by_its_diagonal() {
    let mut d = wrap(&[4.0]);
    assert_eq!(solve_tridiagonal(&wrap(&[7.0]), &wrap(&[2.0]), &wrap(&[9.0]), &mut d), Ok(()));
    assert_eq!(unwrap(&d), vec![2.0]);
}

#[test]
fn empty_system_is_solved() {
    let mut d: Vec<F> = Vec::new();
    assert_eq!(solve_tridiagonal(&Vec::new(), &Vec::new(), &Vec::new(), &mut d), Ok(()));
    assert!(d.is_empty());
}

#[test]
fn round_trip_recovers_known_solution() {
    let mut rng = Lcg(12345);
    for n in [2usize, 3, 10, 57, 200] {
        let mut a = vec![0.0; n];
        let mut b = vec![0.0; n];
        let mut c = vec![0.0; n];
        let mut x = vec![0.0; n];
        for i in 0..n {
            a[i] = if i > 0 { rng.next() * 2.0 - 1.0 } else { 0.0 };
            c[i] = if i + 1 < n { rng.next() * 2.0 - 1.0 } else { 0.0 };
            b[i] = a[i].abs() + c[i].abs() + 1.0 + rng.next();
            x[i] = rng.next() * 200.0 - 100.0;
        }
        let mut d = vec![0.0; n];
        for i in 0..n {
            d[i] = b[i] * x[i];
            if i > 0 {
                d[i] += a[i] * x[i - 1];
            }
            if i + 1 < n {
                d[i] += c[i] * x[i + 1];
            }
        }
        let mut dd = wrap(&d);
        assert_eq!(solve_tridiagonal(&wrap(&a), &wrap(&b), &wrap(&c), &mut dd), Ok(()));
        let got = unwrap(&dd);
        for i in 0..n {
            assert!((got[i] - x[i]).abs() < 1e-9 * (1.0 + x[i].abs()), "n={} i={}", n, i);
        }
    }
}

#[test]
fn zero_first_pivot_is_reported_and_rhs_kept() {
    let mut d = wrap(&[1.0, 2.0]);
    let r = solve_tridiagonal(&wrap(&[0.0, 1.0]), &wrap(&[0.0, 1.0]), &wrap(&[1.0, 0.0]), &mut d);
    assert_eq!(r, Err(SolverError::ZeroPivot));
    assert_eq!(unwrap(&d), vec![1.0, 2.0]);
}

#[test]
fn zero_later_pivot_is_reported_and_rhs_kept() {
    let mut d = wrap(&[1.0, 2.0, 3.0]);
    let r = solve_tridiagonal(&wrap(&[0.0, 1.0, 0.0]), &wrap(&[1.0, 1.0, 1.0]), &wrap(&[1.0, 0.0, 0.0]), &mut d);
    assert_eq!(r, Err(SolverError::ZeroPivot));
    assert_eq!(unwrap(&d), vec![1.0, 2.0, 3.0]);
}

fn sequential_run(length: f64, temperature: f64, points: usize, dt: f64, steps: usize) -> Vec<f64> {
    unwrap(&sequential::solve_heat_equation(F(length), F(temperature), points, F(dt), steps).unwrap())
}

#[test]
fn one_step_on_four_intervals_gives_closed_form() {
    let g = sequential_run(10.0, 100.0, 4, 0.01, 1);
    let alpha = 0.0016;
    let b = 1.0 + 2.0 * alpha;
    let delta = alpha * 100.0;
    let det = b * b * b - 2.0 * b * alpha * alpha;
    let expected = [
        0.0,
        delta * alpha * alpha / det,
        delta * alpha * b / det,
        delta * (b * b - alpha * alpha) / det,
        100.0,
    ];
    assert_eq!(g.len(), 5);
    for i in 0..5 {
        assert!((g[i] - expected[i]).abs() < 1e-12, "{} {} {}", i, g[i], expected[i]);
    }
    assert!((g[3] - 0.15949).abs() < 1e-5);
}

#[test]
fn diffusion_number_of_example() {
    let a = diffusion_number(F(10.0), 4, F(0.01)).unwrap();
    assert!((a.0 - 0.0016).abs() < 1e-15);
}

#[test]
fn diffusion_number_rejections() {
    assert_eq!(diffusion_number(F(10.0), 1, F(0.01)), Err(ConfigError::TooFewPoints));
    assert_eq!(diffusion_number(F(0.0), 4, F(0.01)), Err(ConfigError::NonPositiveLength));
    assert_eq!(diffusion_number(F(-1.0), 4, F(0.01)), Err(ConfigError::NonPositiveLength));
    assert_eq!(diffusion_number(F(10.0), 4, F(0.0)), Err(ConfigError::NonPositiveTimeStep));
    assert_eq!(diffusion_number(F(1e-200), 4, F(0.01)), Err(ConfigError::ZeroSpacing));
}

#[test]
fn solver_rejects_bad_parameters() {
    assert_eq!(
        sequential::solve_heat_equation(F(10.0), F(100.0), 1, F(0.01), 3),
        Err(SolverError::Config(ConfigError::TooFewPoints))
    );
    assert_eq!(
        shared_memory::solve_heat_equation(F(10.0), F(100.0), 8, F(-0.01), 3),
        Err(SolverError::Config(ConfigError::NonPositiveTimeStep))
    );
}

#[test]
fn no_step_returns_initial_rod() {
    let g = sequential_run(10.0, 100.0, 6, 0.01, 0);
    assert_eq!(g, vec![0.0, 0.0, 0.0, 0.0, 0.0, 0.0, 100.0]);
}

#[test]
fn boundaries_hold_after_every_step() {
    for steps in 1..20 {
        for kind in [SolverKind::Sequential, SolverKind::SharedMemory] {
            let g = unwrap(&solve(kind, F(3.0), F(42.5), 7, F(0.05), steps).unwrap());
            assert_eq!(g.len(), 8);
            assert_eq!(g[0], 0.0);
            assert_eq!(g[7], 42.5);
        }
    }
}

#[test]
fn boundaries_restamped_over_any_grid() {
    let system = TridiagonalSystem::for_heat(F(0.3), 4);
    let mut g = wrap(&[9.0, 1.0, 2.0, 3.0, 4.0, -7.0]);
    assert_eq!(advance(&mut g, &system, F(0.3), F(0.0), F(5.0)), Ok(()));
    assert_eq!(g[0].0, 0.0);
    assert_eq!(g[5].0, 5.0);
    let mut h = wrap(&[9.0, 1.0, 2.0, 3.0, 4.0, -7.0]);
    assert_eq!(advance_parallel(&mut h, &system, F(0.3), F(0.0), F(5.0)), Ok(()));
    assert_eq!(g, h);
}

#[test]
fn sequential_and_shared_memory_agree() {
    for (length, temp, points, dt, steps) in [(10.0, 100.0, 50, 0.01, 30), (1.0, 20.0, 1000, 0.001, 5), (2.0, -3.0, 2, 0.5, 4)] {
        let s = sequential_run(length, temp, points, dt, steps);
        let m = unwrap(&shared_memory::solve_heat_equation(F(length), F(temp), points, F(dt), steps).unwrap());
        assert_eq!(s.len(), m.len());
        for i in 0..s.len() {
            assert!((s[i] - m[i]).abs() <= 1e-9 * s[i].abs().max(1e-300), "{} {} {}", i, s[i], m[i]);
        }
    }
}

#[test]
fn parallel_step_moves_values() {
    let system = TridiagonalSystem::for_heat(F(0.0), 3);
    let mut g = wrap(&[0.0, 1.0, 2.0, 3.0, 0.0]);
    assert_eq!(advance_parallel(&mut g, &system, F(0.0), F(-1.0), F(10.0)), Ok(()));
    assert_eq!(unwrap(&g), vec![-1.0, 1.0, 2.0, 3.0, 10.0]);
}

#[test]
fn steady_state_is_linear_profile() {
    let points = 10;
    let t = 80.0;
    let g = sequential_run(1.0, t, points, 1.0, 2000);
    for i in 0..=points {
        let want = t * i as f64 / points as f64;
        assert!((g[i] - want).abs() < 1e-6, "{} {} {}", i, g[i], want);
    }
}

#[test]
fn steady_state_independent_of_start() {
    let points = 8;
    let t = 50.0;
    let alpha = diffusion_number(F(1.0), points, F(1.0)).unwrap();
    let system = TridiagonalSystem::for_heat(alpha, points - 1);
    let mut rng = Lcg(99);
    let start: Vec<F> = (0..=points).map(|_| F(rng.next() * 1000.0 - 500.0)).collect();
    let g = unwrap(&run_steps(SolverKind::Sequential, start, &system, alpha, F(0.0), F(t), 3000).unwrap());
    for i in 0..=points {
        let want = t * i as f64 / points as f64;
        assert!((g[i] - want).abs() < 1e-6, "{} {} {}", i, g[i], want);
    }
}

#[test]
fn run_without_steps_returns_grid() {
    let system = TridiagonalSystem::for_heat(F(1.0), 2);
    let g = wrap(&[5.0, 6.0, 7.0, 8.0]);
    assert_eq!(run_steps(SolverKind::SharedMemory, g.clone(), &system, F(1.0), F(0.0), F(1.0), 0), Ok(g));
}

#[test]
fn zero_pivot_stops_the_run() {
    let system = TridiagonalSystem::for_heat(F(-0.5), 3);
    let g = wrap(&[0.0, 1.0, 1.0, 1.0, 1.0]);
    assert_eq!(run_steps(SolverKind::Sequential, g, &system, F(-0.5), F(0.0), F(1.0), 2), Err(SolverError::ZeroPivot));
}

#[test]
fn grid_helpers() {
    let g = initial_grid(3, F(0.0), F(9.0));
    assert_eq!(unwrap(&g), vec![0.0, 0.0, 0.0, 9.0]);
    let src = wrap(&[1.0, 2.0, 3.0, 4.0]);
    let mut d = wrap(&[0.0, 0.0]);
    load_interior(&src, &mut d);
    assert_eq!(unwrap(&d), vec![2.0, 3.0]);
    let mut g2 = wrap(&[5.0, 5.0, 5.0, 5.0]);
    store_interior(&wrap(&[7.0, 8.0]), &mut g2, F(-1.0), F(1.0));
    assert_eq!(unwrap(&g2), vec![-1.0, 7.0, 8.0, 1.0]);
    let s = TridiagonalSystem::for_heat(F(0.25), 3);
    assert_eq!(unwrap(&s.lower), vec![-0.25; 3]);
    assert_eq!(unwrap(&s.upper), vec![-0.25; 3]);
    assert_eq!(unwrap(&s.diagonal), vec![1.5; 3]);
}

/// Runs every worker of a distributed solve in this process, exchanging
/// halo values by hand in the order the plan gives.
fn distributed_run(length: f64, temp: f64, points: usize, dt: f64, steps: usize, workers: usize) -> Result<Vec<f64>, SolverError> {
    let mut ws = Vec::new();
    for rank in 0..workers {
        ws.push(Worker::new(F(length), F(temp), points, F(dt), workers, rank)?);
    }
    for _ in 0..steps {
        let halos: Vec<(Option<F>, Option<F>)> = ws.iter().map(|w| w.halo_values()).collect();
        for rank in 0..workers {
            let from_left = if rank > 0 { halos[rank - 1].1 } else { None };
            let from_right = if rank + 1 < workers { halos[rank + 1].0 } else { None };
            ws[rank].step(from_left, from_right)?;
        }
    }
    let segments: Vec<Vec<F>> = ws.iter().map(|w| w.segment()).collect();
    assemble(points, workers, &segments, F(0.0), F(temp)).map(|g| unwrap(&g))
}

#[test]
fn distributed_with_one_worker_matches_sequential() {
    let d = distributed_run(10.0, 100.0, 20, 0.01, 15, 1).unwrap();
    let s = sequential_run(10.0, 100.0, 20, 0.01, 15);
    assert_eq!(d, s);
}

#[test]
fn distributed_boundaries_and_shape() {
    for workers in 1..6 {
        for steps in 0..4 {
            let g = distributed_run(5.0, 70.0, 11, 0.2, steps, workers).unwrap();
            assert_eq!(g.len(), 12);
            assert_eq!(g[0], 0.0);
            assert_eq!(g[11], 70.0);
        }
    }
}

#[test]
fn distributed_approximates_sequential_at_small_alpha() {
    let d = distributed_run(10.0, 100.0, 12, 0.0001, 20, 3).unwrap();
    let s = sequential_run(10.0, 100.0, 12, 0.0001, 20);
    for i in 0..s.len() {
        assert!((d[i] - s[i]).abs() < 1e-3, "{} {} {}", i, d[i], s[i]);
    }
}

#[test]
fn distributed_reaches_linear_profile() {
    let g = distributed_run(1.0, 60.0, 9, 1.0, 4000, 4).unwrap();
    for i in 0..=9 {
        let want = 60.0 * i as f64 / 9.0;
        assert!((g[i] - want).abs() < 1e-6, "{} {} {}", i, g[i], want);
    }
}

#[test]
fn worker_rejects_bad_layouts() {
    assert_eq!(
        Worker::new(F(1.0), F(1.0), 3, F(0.1), 3, 0).err(),
        Some(SolverError::Config(ConfigError::TooManyWorkers))
    );
    assert_eq!(
        Worker::new(F(1.0), F(1.0), 9, F(0.1), 2, 2).err(),
        Some(SolverError::Config(ConfigError::RankOutOfRange))
    );
    assert_eq!(
        Worker::new(F(1.0), F(1.0), 9, F(0.1), 0, 0).err(),
        Some(SolverError::Config(ConfigError::NoWorkers))
    );
    assert_eq!(
        Worker::new(F(1.0), F(1.0), 1, F(0.1), 1, 0).err(),
        Some(SolverError::Config(ConfigError::TooFewPoints))
    );
    assert_eq!(
        Worker::new(F(0.0), F(1.0), 9, F(0.1), 2, 0).err(),
        Some(SolverError::Config(ConfigError::NonPositiveLength))
    );
}

#[test]
fn worker_start_state() {
    let w = Worker::new(F(1.0), F(30.0), 10, F(0.1), 3, 2).unwrap();
    assert_eq!(w.part, partition_for(10, 3, 2).unwrap());
    assert_eq!(unwrap(&w.local), vec![0.0, 0.0, 0.0, 0.0, 30.0]);
    assert_eq!(w.halo_values(), (Some(F(0.0)), None));
    let m = Worker::new(F(1.0), F(30.0), 10, F(0.1), 3, 1).unwrap();
    assert_eq!(unwrap(&m.local), vec![0.0; 5]);
}

#[test]
fn worker_step_needs_matching_halos() {
    let mut w = Worker::new(F(1.0), F(30.0), 10, F(0.1), 2, 0).unwrap();
    let before = unwrap(&w.local);
    assert_eq!(w.step(None, None), Err(SolverError::Communication));
    assert_eq!(w.step(Some(F(1.0)), Some(F(1.0))), Err(SolverError::Communication));
    assert_eq!(unwrap(&w.local), before);
    assert_eq!(w.step(None, Some(F(4.0))), Ok(()));
    assert_eq!(w.local[0].0, 0.0);
    assert_eq!(w.local[w.local.len() - 1].0, 4.0);
}

#[test]
fn worker_step_uses_previous_ghost() {
    let mut w = Worker::new(F(1.0), F(30.0), 5, F(0.25), 2, 0).unwrap();
    let alpha = diffusion_number(F(1.0), 5, F(0.25)).unwrap().0;
    assert_eq!(unwrap(&w.local), vec![0.0, 0.0, 0.0, 0.0]);
    w.step(None, Some(F(8.0))).unwrap();
    assert_eq!(unwrap(&w.local), vec![0.0, 0.0, 0.0, 8.0]);
    w.step(None, Some(F(8.0))).unwrap();
    let b = 1.0 + 2.0 * alpha;
    let det = b * b - alpha * alpha;
    let delta = alpha * 8.0;
    let got = unwrap(&w.local);
    assert!((got[1] - delta * alpha / det).abs() < 1e-12);
    assert!((got[2] - delta * b / det).abs() < 1e-12);
}

#[test]
fn worker_segment_is_owned_interior() {
    let mut w = Worker::new(F(1.0), F(30.0), 8, F(0.1), 2, 1).unwrap();
    w.local = wrap(&[1.0, 2.0, 3.0, 4.0, 5.0, 30.0]);
    assert_eq!(unwrap(&w.segment()), vec![2.0, 3.0, 4.0, 5.0]);
}

#[test]
fn exchange_plans_post_sends_first() {
    let mid = partition_for(10, 3, 1).unwrap();
    assert_eq!(
        exchange_plan(&mid),
        vec![
            HaloAction::PostSend { to: 0, slot: 1 },
            HaloAction::PostSend { to: 2, slot: 3 },
            HaloAction::Receive { from: 0, slot: 0 },
            HaloAction::Receive { from: 2, slot: 4 },
            HaloAction::WaitSends,
        ]
    );
    let first = partition_for(10, 3, 0).unwrap();
    assert_eq!(
        exchange_plan(&first),
        vec![HaloAction::PostSend { to: 1, slot: 3 }, HaloAction::Receive { from: 1, slot: 4 }, HaloAction::WaitSends]
    );
    let last = partition_for(11, 3, 2).unwrap();
    assert_eq!(
        exchange_plan(&last),
        vec![HaloAction::PostSend { to: 1, slot: 1 }, HaloAction::Receive { from: 1, slot: 0 }, HaloAction::WaitSends]
    );
    let alone = partition_for(11, 1, 0).unwrap();
    assert_eq!(exchange_plan(&alone), vec![HaloAction::WaitSends]);
}

#[test]
fn assemble_places_segments_in_rank_order() {
    let segs = vec![wrap(&[1.0, 2.0, 3.0]), wrap(&[4.0, 5.0, 6.0]), wrap(&[7.0, 8.0, 9.0, 10.0])];
    let g = assemble(11, 3, &segs, F(0.0), F(99.0)).unwrap();
    assert_eq!(unwrap(&g), vec![0.0, 1.0, 2.0, 3.0, 4.0, 5.0, 6.0, 7.0, 8.0, 9.0, 10.0, 99.0]);
}

#[test]
fn assemble_rejects_wrong_shapes() {
    let segs = vec![wrap(&[1.0, 2.0, 3.0]), wrap(&[4.0, 5.0, 6.0, 7.0])];
    assert_eq!(assemble(7, 2, &segs, F(0.0), F(1.0)), Err(SolverError::Communication));
    assert_eq!(assemble(7, 3, &segs, F(0.0), F(1.0)), Err(SolverError::Communication));
    assert_eq!(assemble(1, 2, &segs, F(0.0), F(1.0)), Err(SolverError::Config(ConfigError::TooFewPoints)));
    assert_eq!(assemble(8, 0, &segs, F(0.0), F(1.0)), Err(SolverError::Config(ConfigError::NoWorkers)));
    assert_eq!(assemble(8, 2, &segs, F(0.0), F(1.0)).map(|g| g.len()), Ok(9));
}
