//! A bonding-curve pricing engine: pure, deterministic quote computation for
//! buying tokens with a payment asset and selling them back, against an
//! invariant curve calibrated by a fixed parameter set.
//!
//! The engine is stateless: every call receives the current escrowed reserve
//! as an argument and returns a quoted counter-amount (or a typed error).
//! Applying the resulting transfers is the caller's concern.

pub mod curve;
pub mod engine;
pub mod laws;
pub mod trade;
