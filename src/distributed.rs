use vstd::prelude::*;

use crate::error::SolverError;
use crate::grid::{filled, heat_rhs, interior, load_interior, restamped, step_spec, store_interior, TridiagonalSystem};
use crate::partition::{
    check_layout, layout_ok, lemma_partitions_ordered, lemma_partitions_tile, part_end, part_size, part_start, partition_for,
    ConfigError, Partition,
};
use crate::scalar::Scalar;
use crate::solver::{diffusion_number, diffusion_result};
use crate::tridiagonal::{solve_tridiagonal, thomas};

verus! {

/// One move of a worker in the halo exchange of a time step.
///
/// Slots index the worker's local segment: slot 0 and slot `size + 1` are
/// the ghost slots that mirror the neighbours, slots `1 ..= size` hold the
/// owned interior.
#[derive(Clone, Copy, Debug, PartialEq, Eq, Structural)]
pub enum HaloAction {
    /// Start a non-blocking send of the value in `slot` to rank `to`.
    PostSend { to: usize, slot: usize },
    /// Block until rank `from` has sent its value, and keep it in `slot`.
    Receive { from: usize, slot: usize },
    /// Wait until the posted sends have completed.
    WaitSends,
}

impl HaloAction {
    pub open spec fn is_send(self) -> bool {
        self is PostSend
    }

    pub open spec fn is_receive(self) -> bool {
        self is Receive
    }
}

/// The exchange of a partition: its first owned value goes to the left
/// neighbour and its last to the right one, the neighbours' values come
/// into the two ghost slots, each move only where that neighbour exists.
pub open spec fn exchange_plan_spec(p: Partition) -> Seq<HaloAction> {
    let size = p.end - p.start;
    let sends = (if p.left is Some { seq![HaloAction::PostSend { to: p.left->Some_0, slot: 1 }] } else { seq![] })
        + (if p.right is Some { seq![HaloAction::PostSend { to: p.right->Some_0, slot: size as usize }] } else { seq![] });
    let receives = (if p.left is Some { seq![HaloAction::Receive { from: p.left->Some_0, slot: 0 }] } else { seq![] })
        + (if p.right is Some { seq![HaloAction::Receive { from: p.right->Some_0, slot: (size + 1) as usize }] } else { seq![] });
    sends + receives + seq![HaloAction::WaitSends]
}

/// The moves of one halo exchange, in the order a worker makes them.
///
/// Every send is posted before the first blocking receive, so that no
/// worker can wait on a neighbour that is itself waiting before sending;
/// the plan ends by waiting for the sends.
pub fn exchange_plan(p: &Partition) -> (r: Vec<HaloAction>)
    requires
        p.start <= p.end,
        p.end < usize::MAX,
    ensures
        r@ == exchange_plan_spec(*p),
        forall|i: int, j: int| 0 <= i < r.len() && 0 <= j < r.len() && (#[trigger] r[i]).is_receive() && (#[trigger] r[j]).is_send() ==> j < i,
        r[r.len() - 1] == HaloAction::WaitSends,
{
    let size = p.end - p.start;
    let mut r: Vec<HaloAction> = Vec::new();
    match p.left {
        Some(to) => r.push(HaloAction::PostSend { to, slot: 1 }),
        None => {},
    }
    match p.right {
        Some(to) => r.push(HaloAction::PostSend { to, slot: size }),
        None => {},
    }
    let sends = r.len();
    match p.left {
        Some(from) => r.push(HaloAction::Receive { from, slot: 0 }),
        None => {},
    }
    match p.right {
        Some(from) => r.push(HaloAction::Receive { from, slot: size + 1 }),
        None => {},
    }
    r.push(HaloAction::WaitSends);
    assert(r@ =~= exchange_plan_spec(*p));
    assert forall|i: int, j: int| 0 <= i < r.len() && 0 <= j < r.len() && (#[trigger] r[i]).is_receive() && (#[trigger] r[j]).is_send() implies j < i by {
        assert(forall|k: int| 0 <= k < sends ==> (#[trigger] r[k]).is_send());
        assert(forall|k: int| sends <= k < r.len() ==> !(#[trigger] r[k]).is_send());
        assert(forall|k: int| 0 <= k < sends ==> !(#[trigger] r[k]).is_receive());
    }
    r
}

/// The state of one worker of a distributed run: its partition, its local
/// segment (the owned interior with a ghost slot on either side), and the
/// tridiagonal system of its partition.
///
/// A ghost slot at an end of the rod holds the fixed boundary value for the
/// whole run: `cold` on the left, `temperature` on the right. A ghost slot
/// between partitions holds what the neighbour sent at the last exchange.
pub struct Worker<T> {
    pub part: Partition,
    pub local: Vec<T>,
    pub system: TridiagonalSystem<T>,
    pub alpha: T,
    pub cold: T,
    pub temperature: T,
}

/// What the neighbour on one side handed over, or the value already in the
/// ghost slot where there is no neighbour.
pub open spec fn ghost_after<T>(received: Option<T>, before: T) -> T {
    match received {
        Some(v) => v,
        None => before,
    }
}

impl<T: Scalar> Worker<T> {
    /// Number of interior points the worker owns.
    pub open spec fn size(&self) -> int {
        self.part.size()
    }

    pub open spec fn wf(&self) -> bool {
        &&& self.part.start < self.part.end < usize::MAX
        &&& self.local.len() == self.size() + 2
        &&& self.system.wf()
        &&& self.system.size() == self.size()
        &&& self.part.left is None ==> self.local[0] == self.cold
        &&& self.part.right is None ==> self.local[self.size() + 1] == self.temperature
    }

    /// Sets up the worker of `rank` among `workers` for a rod of `length`
    /// held at zero on the left and `temperature` on the right, cut into
    /// `points` intervals, stepped by `dt`.
    ///
    /// Rejects a grid too large to index, a layout in which a partition
    /// would be empty (see [`check_layout`]), a rank out of range, and the
    /// parameters that [`diffusion_number`] rejects, in that order. The
    /// segment starts at zero, ghosts included, but for the right ghost of the
    /// last rank, which holds `temperature`; the system is the heat matrix
    /// of the diffusion number on the partition's points.
    pub fn new(length: T, temperature: T, points: usize, dt: T, workers: usize, rank: usize) -> (r: Result<Self, SolverError>)
        ensures
            points == usize::MAX ==> r == Err::<Self, SolverError>(SolverError::Config(ConfigError::TooManyPoints)),
            points < 2 ==> r == Err::<Self, SolverError>(SolverError::Config(ConfigError::TooFewPoints)),
            points >= 2 && points < usize::MAX && workers == 0 ==> r == Err::<Self, SolverError>(SolverError::Config(ConfigError::NoWorkers)),
            points < usize::MAX && layout_ok(points as int, workers as int) && workers > points - 1 ==> r == Err::<Self, SolverError>(
                SolverError::Config(ConfigError::TooManyWorkers),
            ),
            points < usize::MAX && layout_ok(points as int, workers as int) && workers <= points - 1 && rank >= workers ==> r == Err::<Self, SolverError>(
                SolverError::Config(ConfigError::RankOutOfRange),
            ),
            points < usize::MAX && layout_ok(points as int, workers as int) && workers <= points - 1 && rank < workers
                && diffusion_result(length, points, dt) is Err ==> r == Err::<Self, SolverError>(
                SolverError::Config(diffusion_result(length, points, dt)->Err_0),
            ),
            r is Ok <==> points < usize::MAX && layout_ok(points as int, workers as int) && workers <= points - 1
                && rank < workers && diffusion_result(length, points, dt) is Ok,
            r is Err ==> r->Err_0 is Config,
            r is Ok ==> {
                let w = r->Ok_0;
                &&& w.wf()
                &&& w.part == Partition::spec_of(points as int, workers as int, rank as int)
                &&& w.alpha == diffusion_result(length, points, dt)->Ok_0
                &&& w.cold == T::spec_zero()
                &&& w.temperature == temperature
                &&& w.system.is_heat(w.alpha, w.size())
                &&& forall|i: int| 0 <= i <= w.size() ==> #[trigger] w.local[i] == w.cold
                &&& w.local[w.size() + 1] == if rank == workers - 1 { temperature } else { w.cold }
            },
    {
        if points == usize::MAX {
            return Err(SolverError::Config(ConfigError::TooManyPoints));
        }
        match check_layout(points, workers) {
            Ok(()) => {},
            Err(e) => {
                return Err(SolverError::Config(e));
            },
        }
        let part = match partition_for(points, workers, rank) {
            Ok(p) => p,
            Err(e) => {
                return Err(SolverError::Config(e));
            },
        };
        proof {
            crate::partition::lemma_partition_nonempty(points as int, workers as int, rank as int);
        }
        let alpha = match diffusion_number(length, points, dt) {
            Ok(a) => a,
            Err(e) => {
                return Err(SolverError::Config(e));
            },
        };
        let cold = T::zero();
        let size = part.end - part.start;
        let mut local = filled(size + 2, cold);
        if rank == workers - 1 {
            local.set(size + 1, temperature);
        }
        let system = TridiagonalSystem::for_heat(alpha, size);
        Ok(Worker { part, local, system, alpha, cold, temperature })
    }

    /// The values this worker sends in the coming exchange: its first
    /// owned value to the left neighbour and its last to the right one,
    /// each only where that neighbour exists.
    pub fn halo_values(&self) -> (r: (Option<T>, Option<T>))
        requires
            self.wf(),
        ensures
            r.0 == if self.part.left is Some { Some(self.local[1]) } else { None::<T> },
            r.1 == if self.part.right is Some { Some(self.local[self.size()]) } else { None::<T> },
    {
        let size = self.part.end - self.part.start;
        let l = match self.part.left {
            Some(_) => Some(self.local[1]),
            None => None,
        };
        let r = match self.part.right {
            Some(_) => Some(self.local[size]),
            None => None,
        };
        (l, r)
    }

    /// Whether the values handed over match the neighbours that exist.
    pub open spec fn halos_match(&self, from_left: Option<T>, from_right: Option<T>) -> bool {
        (from_left is Some) == (self.part.left is Some) && (from_right is Some) == (self.part.right is Some)
    }

    /// The owned segment after a step: the solution of the partition's
    /// system for the owned values, the first and last raised by `alpha`
    /// times the ghost values.
    pub open spec fn stepped_interior(&self) -> Seq<T> {
        thomas(
            self.system.lower@,
            self.system.diagonal@,
            self.system.upper@,
            heat_rhs(interior(self.local@), self.alpha, self.local[0], self.local[self.size() + 1]),
        )
    }

    /// One time step of the worker, after the halo exchange has brought
    /// `from_left` and `from_right` from the neighbours.
    ///
    /// The right-hand side is the owned segment, its first and last entries
    /// raised by `alpha` times the ghost values as they stood before this
    /// exchange (the fixed boundary values at the rod's ends); the partition's
    /// own system is solved; the solution becomes the owned segment, and the
    /// received values go into the ghost slots.
    ///
    /// A value missing from an existing neighbour, or handed over by one
    /// that does not exist, is a communication failure. Otherwise the step
    /// succeeds exactly when the system is solvable. A failure leaves the
    /// worker as it was.
    pub fn step(&mut self, from_left: Option<T>, from_right: Option<T>) -> (r: Result<(), SolverError>)
        requires
            old(self).wf(),
        ensures
            final(self).wf(),
            !old(self).halos_match(from_left, from_right) ==> r == Err::<(), SolverError>(SolverError::Communication),
            old(self).halos_match(from_left, from_right) ==> (r is Ok <==> old(self).system.solvable()),
            r is Err ==> *final(self) == *old(self) && (r->Err_0 == SolverError::Communication || r->Err_0
                == SolverError::ZeroPivot),
            r is Ok ==> {
                &&& final(self).part == old(self).part
                &&& final(self).system == old(self).system
                &&& final(self).alpha == old(self).alpha
                &&& final(self).cold == old(self).cold
                &&& final(self).temperature == old(self).temperature
                &&& final(self).local@ == restamped(
                    ghost_after(from_left, old(self).local[0]),
                    old(self).stepped_interior(),
                    ghost_after(from_right, old(self).local[old(self).size() + 1]),
                )
            },
    {
        if from_left.is_some() != self.part.left.is_some() || from_right.is_some() != self.part.right.is_some() {
            return Err(SolverError::Communication);
        }
        let n = self.system.diagonal.len();
        let mut d = filled(n, self.cold);
        load_interior(&self.local, &mut d);
        let first = d[0].plus(self.alpha.times(self.local[0]));
        d.set(0, first);
        let last = d[n - 1].plus(self.alpha.times(self.local[n + 1]));
        d.set(n - 1, last);
        assert(d@ =~= heat_rhs(interior(self.local@), self.alpha, self.local[0], self.local[n as int + 1]));
        match solve_tridiagonal(&self.system.lower, &self.system.diagonal, &self.system.upper, &mut d) {
            Ok(()) => {},
            Err(e) => {
                return Err(e);
            },
        }
        let new_left = match from_left {
            Some(v) => v,
            None => self.local[0],
        };
        let new_right = match from_right {
            Some(v) => v,
            None => self.local[n + 1],
        };
        store_interior(&d, &mut self.local, new_left, new_right);
        Ok(())
    }

    /// The owned part of the segment, in index order.
    pub fn segment(&self) -> (r: Vec<T>)
        requires
            self.wf(),
        ensures
            r@ == interior(self.local@),
    {
        let mut r = filled(self.part.end - self.part.start, self.cold);
        load_interior(&self.local, &mut r);
        r
    }
}

/// Appends `src` to `dst`.
fn append<T: Copy>(dst: &mut Vec<T>, src: &Vec<T>)
    ensures
        final(dst)@ == old(dst)@ + src@,
{
    let mut i: usize = 0;
    while i < src.len()
        invariant
            i <= src.len(),
            dst@ == old(dst)@ + src@.subrange(0, i as int),
        decreases src.len() - i,
    {
        dst.push(src[i]);
        i = i + 1;
        assert(dst@ =~= old(dst)@ + src@.subrange(0, i as int));
    }
    assert(src@.subrange(0, src.len() as int) =~= src@);
}

/// A worker with no neighbour owns the whole interior and its ghost slots
/// are the rod's ends: a successful step leaves exactly the grid that one
/// step of the whole-rod recipe gives, so a one-worker run matches the
/// sequential solver.
pub proof fn lemma_lone_worker_steps_like_whole_rod<T: Scalar>(w: Worker<T>, from_left: Option<T>, from_right: Option<T>)
    requires
        w.wf(),
        w.part.left is None,
        w.part.right is None,
        w.halos_match(from_left, from_right),
    ensures
        restamped(
            ghost_after(from_left, w.local[0]),
            w.stepped_interior(),
            ghost_after(from_right, w.local[w.size() + 1]),
        ) == step_spec(w.system.lower@, w.system.diagonal@, w.system.upper@, w.local@, w.alpha, w.cold, w.temperature),
{
}

/// The segments that the workers of a split of `points` among `workers`
/// hand in: one per rank, each as long as that rank's partition.
pub open spec fn segments_fit<T>(points: int, workers: int, segments: Seq<Vec<T>>) -> bool {
    &&& segments.len() == workers
    &&& forall|q: int| 0 <= q < workers ==> (#[trigger] segments[q]).len() == part_size(points, workers, q)
}

/// Whether the segments fit the layout (see [`segments_fit`]).
fn segments_fit_exec<T: Copy>(points: usize, workers: usize, segments: &Vec<Vec<T>>) -> (r: bool)
    requires
        layout_ok(points as int, workers as int),
    ensures
        r == segments_fit(points as int, workers as int, segments@),
{
    if segments.len() != workers {
        return false;
    }
    let mut k: usize = 0;
    while k < workers
        invariant
            layout_ok(points as int, workers as int),
            segments.len() == workers,
            k <= workers,
            forall|q: int| 0 <= q < k ==> (#[trigger] segments[q]).len() == part_size(points as int, workers as int, q),
        decreases workers - k,
    {
        let p = match partition_for(points, workers, k) {
            Ok(p) => p,
            Err(_) => {
                return false;
            },
        };
        proof {
            lemma_partitions_tile(points as int, workers as int);
            assert(1 <= part_start(points as int, workers as int, k as int) <= part_end(points as int, workers as int, k as int));
        }
        if segments[k].len() != p.end - p.start {
            assert(!segments_fit(points as int, workers as int, segments@));
            return false;
        }
        k = k + 1;
    }
    true
}

/// Puts the segments gathered from the workers back into one grid of
/// `points + 1` samples: `cold` at index 0, each rank's segment at its
/// partition's range, `temperature` at index `points`.
///
/// Fails with a configuration error for a layout that
/// [`crate::partition::partition_domain`] rejects, and with a communication
/// error when a rank's segment is missing or of the wrong length.
pub fn assemble<T: Copy>(points: usize, workers: usize, segments: &Vec<Vec<T>>, cold: T, temperature: T) -> (r: Result<Vec<T>, SolverError>)
    ensures
        points < 2 ==> r == Err::<Vec<T>, SolverError>(SolverError::Config(ConfigError::TooFewPoints)),
        points >= 2 && workers == 0 ==> r == Err::<Vec<T>, SolverError>(SolverError::Config(ConfigError::NoWorkers)),
        layout_ok(points as int, workers as int) && !segments_fit(points as int, workers as int, segments@)
            ==> r == Err::<Vec<T>, SolverError>(SolverError::Communication),
        r is Ok <==> layout_ok(points as int, workers as int) && segments_fit(points as int, workers as int, segments@),
        r is Ok ==> {
            let g = r->Ok_0;
            &&& g.len() == points + 1
            &&& g[0] == cold
            &&& g[points as int] == temperature
            &&& forall|q: int, j: int|
                0 <= q < workers && 0 <= j < part_size(points as int, workers as int, q) ==> g[part_start(
                    points as int,
                    workers as int,
                    q,
                ) + j] == #[trigger] segments[q][j]
        },
{
    if points < 2 {
        return Err(SolverError::Config(ConfigError::TooFewPoints));
    }
    if workers == 0 {
        return Err(SolverError::Config(ConfigError::NoWorkers));
    }
    proof {
        lemma_partitions_tile(points as int, workers as int);
    }
    if !segments_fit_exec(points, workers, segments) {
        return Err(SolverError::Communication);
    }
    let mut g: Vec<T> = Vec::new();
    g.push(cold);
    let mut r: usize = 0;
    while r < workers
        invariant
            layout_ok(points as int, workers as int),
            segments_fit(points as int, workers as int, segments@),
            r <= workers,
            r < workers ==> g.len() == part_start(points as int, workers as int, r as int),
            r == workers ==> g.len() == points,
            g[0] == cold,
            forall|q: int, j: int|
                0 <= q < r && 0 <= j < part_size(points as int, workers as int, q) ==> g[part_start(
                    points as int,
                    workers as int,
                    q,
                ) + j] == #[trigger] segments[q][j],
        decreases workers - r,
    {
        let ghost before = g@;
        proof {
            lemma_partitions_tile(points as int, workers as int);
            assert(1 <= part_start(points as int, workers as int, r as int) <= part_end(points as int, workers as int, r as int));
            assert(part_start(points as int, workers as int, 0) == 1);
            assert forall|q: int| 0 <= q < r implies part_end(points as int, workers as int, q) <= before.len() by {
                lemma_partitions_ordered(points as int, workers as int, q, r as int);
            }
            if r + 1 < workers {
                assert(part_end(points as int, workers as int, r as int) == part_start(points as int, workers as int, r + 1));
            }
        }
        append(&mut g, &segments[r]);
        proof {
            assert forall|q: int, j: int|
                0 <= q <= r && 0 <= j < part_size(points as int, workers as int, q) implies g[part_start(
                    points as int,
                    workers as int,
                    q,
                ) + j] == #[trigger] segments[q][j] by {
                if q < r {
                    assert(part_start(points as int, workers as int, q) + j < part_end(points as int, workers as int, q));
                    assert(g[part_start(points as int, workers as int, q) + j] == before[part_start(points as int, workers as int, q) + j]);
                } else {
                    assert(g[before.len() + j] == segments[r as int][j]);
                }
            }
        }
        r = r + 1;
    }
    g.push(temperature);
    Ok(g)
}

} // verus!
