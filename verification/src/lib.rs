//! Numerical core of a StableSwap-style automated market maker.
//!
//! The crate proves the invariant solvers and the liquidity-curve
//! operations (deposit, withdrawal, swap) that turn pool reserves and
//! LP-share figures into mint, burn and transfer amounts. Account handling
//! and token movement live outside this crate; callers hand in plain
//! integer balances and receive plain integer amounts back.
pub mod config;
pub mod curve_ops;
pub mod errors;
pub mod instruction_data;
pub mod instructions;
pub mod numerical_ops;
