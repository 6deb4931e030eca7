//! Discrete core of an astrodynamics toolkit, with every rule stated as a
//! contract and proved: time bookkeeping, the life cycle of stochastic bias
//! models, the propagator engine with its step-size control, trajectories
//! and the search for events along them, and the sequencing of a sequential
//! filter and of the orbit determination process around it.
//!
//! Real-valued quantities are carried as IEEE-754 binary64 bit patterns in
//! `u64`; this crate stores and routes them and never does arithmetic on
//! them. The arithmetic is handed in by the caller, as values or as
//! functions, and the contracts say which of its results ends up where.

pub mod io;
pub mod md;
pub mod od;
pub mod propagators;
pub mod time;
