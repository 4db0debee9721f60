use vstd::prelude::*;

verus! {

/// Why a run cannot start with the given layout.
#[derive(Clone, Copy, Debug, PartialEq, Eq, Structural)]
pub enum ConfigError {
    /// Fewer than two grid intervals: there is no interior point to evolve.
    TooFewPoints,
    /// So many intervals that the grid's samples cannot be indexed.
    TooManyPoints,
    /// No worker to own the interior.
    NoWorkers,
    /// More workers than interior points: some partition would be empty.
    TooManyWorkers,
    /// A rank at or beyond the worker count.
    RankOutOfRange,
    /// The rod length is not positive.
    NonPositiveLength,
    /// The time step is not positive.
    NonPositiveTimeStep,
    /// The squared grid spacing is zero, so the diffusion number is undefined.
    ZeroSpacing,
}

/// The share of the interior that one worker owns.
///
/// The interior indices are `1 .. points`; a partition owns the half-open
/// range `start .. end` of them. `left` and `right` are the ranks of the
/// neighbouring partitions, `None` at the ends of the rod.
#[derive(Clone, Copy, Debug, PartialEq, Eq, Structural)]
pub struct Partition {
    pub rank: usize,
    pub start: usize,
    pub end: usize,
    pub left: Option<usize>,
    pub right: Option<usize>,
}

/// Size of every partition but the last: `(points - 1) / workers`.
pub open spec fn chunk(points: int, workers: int) -> int {
    (points - 1) / workers
}

/// First interior index owned by `rank`.
pub open spec fn part_start(points: int, workers: int, rank: int) -> int {
    1 + rank * chunk(points, workers)
}

/// One past the last interior index owned by `rank`; the last partition
/// runs to the right boundary and so absorbs the remainder.
pub open spec fn part_end(points: int, workers: int, rank: int) -> int {
    if rank == workers - 1 {
        points
    } else {
        1 + (rank + 1) * chunk(points, workers)
    }
}

/// Number of interior points owned by `rank`.
pub open spec fn part_size(points: int, workers: int, rank: int) -> int {
    part_end(points, workers, rank) - part_start(points, workers, rank)
}

/// Total size of the partitions of ranks below `k`.
pub open spec fn sizes_below(points: int, workers: int, k: int) -> int
    decreases k,
{
    if k <= 0 {
        0
    } else {
        sizes_below(points, workers, k - 1) + part_size(points, workers, k - 1)
    }
}

/// A layout that the partitioner accepts: at least one interior point and
/// at least one worker.
pub open spec fn layout_ok(points: int, workers: int) -> bool {
    points >= 2 && workers >= 1
}

impl Partition {
    /// The partition of `rank` in the split of `points` among `workers`.
    pub open spec fn spec_of(points: int, workers: int, rank: int) -> Partition {
        Partition {
            rank: rank as usize,
            start: part_start(points, workers, rank) as usize,
            end: part_end(points, workers, rank) as usize,
            left: if rank == 0 { None } else { Some((rank - 1) as usize) },
            right: if rank == workers - 1 { None } else { Some((rank + 1) as usize) },
        }
    }

    /// Number of interior points the partition owns.
    pub open spec fn size(self) -> int {
        self.end - self.start
    }

    /// Number of interior points the partition owns.
    pub fn len(&self) -> (r: usize)
        requires
            self.start <= self.end,
        ensures
            r == self.size(),
    {
        self.end - self.start
    }
}

proof fn lemma_bounds(points: int, workers: int, rank: int)
    requires
        layout_ok(points, workers),
        0 <= rank < workers,
    ensures
        0 <= chunk(points, workers),
        workers * chunk(points, workers) <= points - 1,
        1 <= part_start(points, workers, rank) <= part_end(points, workers, rank) <= points,
        rank + 1 < workers ==> part_end(points, workers, rank) == part_start(points, workers, rank + 1),
{
    let c = chunk(points, workers);
    assert(0 <= c) by (nonlinear_arith)
        requires points >= 2, workers >= 1, c == (points - 1) / workers;
    assert(workers * c <= points - 1) by (nonlinear_arith)
        requires points >= 2, workers >= 1, c == (points - 1) / workers;
    assert(rank * c <= (rank + 1) * c <= workers * c) by (nonlinear_arith)
        requires 0 <= rank < workers, c >= 0;
    assert((rank + 1) * c == rank * c + c) by (nonlinear_arith);
}

/// Partitions of lower rank lie wholly to the left of those of higher rank.
pub proof fn lemma_partitions_ordered(points: int, workers: int, q: int, r: int)
    requires
        layout_ok(points, workers),
        0 <= q < r < workers,
    ensures
        part_end(points, workers, q) <= part_start(points, workers, r),
    decreases r - q,
{
    lemma_bounds(points, workers, q);
    if r > q + 1 {
        lemma_partitions_ordered(points, workers, q, r - 1);
        lemma_bounds(points, workers, r - 1);
    }
}

/// With no more workers than interior points, every partition owns at least
/// one point.
pub proof fn lemma_partition_nonempty(points: int, workers: int, rank: int)
    requires
        layout_ok(points, workers),
        workers <= points - 1,
        0 <= rank < workers,
    ensures
        part_size(points, workers, rank) >= 1,
        part_end(points, workers, rank) <= points,
{
    let c = chunk(points, workers);
    lemma_bounds(points, workers, rank);
    assert(c >= 1) by (nonlinear_arith)
        requires points >= 2, 1 <= workers <= points - 1, c == (points - 1) / workers;
    assert((rank + 1) * c == rank * c + c) by (nonlinear_arith);
    assert(workers * c == (workers - 1) * c + c) by (nonlinear_arith);
    assert(rank * c <= (workers - 1) * c) by (nonlinear_arith)
        requires 0 <= rank < workers, c >= 1;
}

/// Computes the partition of `rank` when `points` grid intervals are split
/// among `workers`: every rank gets `(points - 1) / workers` interior
/// points, in rank order, and the last rank also takes the remainder.
///
/// Layouts with more workers than interior points are accepted here, the
/// surplus ranks owning empty ranges; a distributed run rejects them with
/// [`check_layout`].
pub fn partition_for(points: usize, workers: usize, rank: usize) -> (r: Result<Partition, ConfigError>)
    ensures
        points < 2 ==> r == Err::<Partition, ConfigError>(ConfigError::TooFewPoints),
        points >= 2 && workers == 0 ==> r == Err::<Partition, ConfigError>(ConfigError::NoWorkers),
        layout_ok(points as int, workers as int) && rank >= workers ==> r == Err::<Partition, ConfigError>(ConfigError::RankOutOfRange),
        layout_ok(points as int, workers as int) && rank < workers ==> r == Ok::<Partition, ConfigError>(
            Partition::spec_of(points as int, workers as int, rank as int),
        ),
{
    if points < 2 {
        return Err(ConfigError::TooFewPoints);
    }
    if workers == 0 {
        return Err(ConfigError::NoWorkers);
    }
    if rank >= workers {
        return Err(ConfigError::RankOutOfRange);
    }
    proof {
        lemma_bounds(points as int, workers as int, rank as int);
    }
    let c = (points - 1) / workers;
    proof {
        assert(rank * c <= workers * c) by (nonlinear_arith)
            requires rank < workers, c >= 0;
    }
    let start = 1 + rank * c;
    let end = if rank == workers - 1 { points } else { 1 + (rank + 1) * c };
    let left = if rank == 0 { None } else { Some(rank - 1) };
    let right = if rank == workers - 1 { None } else { Some(rank + 1) };
    Ok(Partition { rank, start, end, left, right })
}

/// Splits the interior of `points` grid intervals among `workers`: one
/// partition per rank, in rank order (see [`partition_for`]).
pub fn partition_domain(points: usize, workers: usize) -> (r: Result<Vec<Partition>, ConfigError>)
    ensures
        points < 2 ==> r == Err::<Vec<Partition>, ConfigError>(ConfigError::TooFewPoints),
        points >= 2 && workers == 0 ==> r == Err::<Vec<Partition>, ConfigError>(ConfigError::NoWorkers),
        layout_ok(points as int, workers as int) ==> r is Ok,
        r is Ok ==> r->Ok_0.len() == workers && forall|k: int|
            0 <= k < workers ==> r->Ok_0[k] == Partition::spec_of(points as int, workers as int, k),
{
    if points < 2 {
        return Err(ConfigError::TooFewPoints);
    }
    if workers == 0 {
        return Err(ConfigError::NoWorkers);
    }
    let mut parts: Vec<Partition> = Vec::new();
    let mut k: usize = 0;
    while k < workers
        invariant
            layout_ok(points as int, workers as int),
            k <= workers,
            parts.len() == k,
            forall|j: int| 0 <= j < k ==> parts[j] == Partition::spec_of(points as int, workers as int, j),
        decreases workers - k,
    {
        let p = partition_for(points, workers, k);
        match p {
            Ok(part) => parts.push(part),
            Err(_) => {},
        }
        k = k + 1;
    }
    Ok(parts)
}

/// Accepts a layout for a distributed run: at least one interior point, at
/// least one worker, and no more workers than interior points, so that no
/// partition is empty.
pub fn check_layout(points: usize, workers: usize) -> (r: Result<(), ConfigError>)
    ensures
        points < 2 ==> r == Err::<(), ConfigError>(ConfigError::TooFewPoints),
        points >= 2 && workers == 0 ==> r == Err::<(), ConfigError>(ConfigError::NoWorkers),
        layout_ok(points as int, workers as int) && workers > points - 1
            ==> r == Err::<(), ConfigError>(ConfigError::TooManyWorkers),
        r is Ok <==> layout_ok(points as int, workers as int) && workers <= points - 1,
{
    if points < 2 {
        Err(ConfigError::TooFewPoints)
    } else if workers == 0 {
        Err(ConfigError::NoWorkers)
    } else if workers > points - 1 {
        Err(ConfigError::TooManyWorkers)
    } else {
        Ok(())
    }
}

/// The partitions tile the interior: each range is well formed and lies in
/// `1 .. points`, the first starts at 1, each starts where the one before it
/// ends (so no index is skipped), every range lies wholly before those of
/// higher rank (so no two overlap), the last ends at `points`, and their
/// sizes add up to `points - 1`.
pub proof fn lemma_partitions_tile(points: int, workers: int)
    requires
        layout_ok(points, workers),
    ensures
        part_start(points, workers, 0) == 1,
        part_end(points, workers, workers - 1) == points,
        forall|r: int| 0 <= r < workers ==>
            1 <= #[trigger] part_start(points, workers, r) <= part_end(points, workers, r) <= points,
        forall|r: int| 0 <= r < workers - 1 ==>
            #[trigger] part_end(points, workers, r) == part_start(points, workers, r + 1),
        forall|q: int, r: int| 0 <= q < r < workers ==>
            #[trigger] part_end(points, workers, q) <= #[trigger] part_start(points, workers, r),
        sizes_below(points, workers, workers) == points - 1,
{
    assert forall|q: int, r: int| 0 <= q < r < workers implies
        #[trigger] part_end(points, workers, q) <= #[trigger] part_start(points, workers, r) by {
        lemma_partitions_ordered(points, workers, q, r);
    }
    assert forall|r: int| 0 <= r < workers implies
        1 <= #[trigger] part_start(points, workers, r) <= part_end(points, workers, r) <= points by {
        lemma_bounds(points, workers, r);
    }
    assert forall|r: int| 0 <= r < workers - 1 implies
        #[trigger] part_end(points, workers, r) == part_start(points, workers, r + 1) by {
        lemma_bounds(points, workers, r);
    }
    lemma_sizes_below(points, workers, workers);
}

proof fn lemma_sizes_below(points: int, workers: int, k: int)
    requires
        layout_ok(points, workers),
        0 <= k <= workers,
    ensures
        k == 0 ==> sizes_below(points, workers, k) == 0,
        k > 0 ==> sizes_below(points, workers, k) == part_end(points, workers, k - 1) - 1,
    decreases k,
{
    if k > 0 {
        lemma_sizes_below(points, workers, k - 1);
        lemma_bounds(points, workers, k - 1);
        if k > 1 {
            lemma_bounds(points, workers, k - 2);
        }
    }
}

} // verus!
