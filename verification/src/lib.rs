//! A verified two-dimensional particle solver: circular particles confined to
//! a disk, advanced by Störmer–Verlet integration in fixed sub-steps, with
//! pairwise inelastic collision response and a hard circular boundary clamp.
//!
//! All quantities are fixed-point numbers: a raw `i64` value `r` stands for
//! the real number `r / SCALE`, with `SCALE = 65536`. Every arithmetic step
//! of the solver is specified exactly, down to the truncating divisions, by
//! spec-level model functions over unbounded integers.

pub mod fixed;
pub mod vector;
pub mod object;
pub mod solver;
