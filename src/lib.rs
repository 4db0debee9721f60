//! Building blocks of an implicit finite-difference solver for the 1-D heat
//! equation on a rod, in sequential, shared-memory and distributed forms.
//!
//! The numeric type is left to the caller (see [`scalar::Scalar`]); what the
//! library proves is the index logic that the three solvers share: how the
//! interior points are split among workers, how a time step moves values
//! between the grid and the linear system, how neighbours exchange halo
//! values, and how the partitions are put back together.
pub mod distributed;
pub mod error;
pub mod grid;
pub mod partition;
pub mod scalar;
pub mod sequential;
pub mod shared_memory;
pub mod solver;
pub mod tridiagonal;
