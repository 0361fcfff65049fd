//! The three operations of the pool engine: pool creation, deposits, swaps.

pub mod add;
pub mod initialize;
pub mod swap;
