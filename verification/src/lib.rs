//! A constant-product market maker with a dynamic fee.
//!
//! The pool quotes swaps between X and Y. Its fee rises while the reserves are out of balance and
//! while trades come in bursts; a burst detector in the pool's storage keeps track of the latter.
//! `program` answers encoded instructions, `swap` quotes, `burst` keeps the detector, `fee` sets
//! the fee, `curve` holds the arithmetic of the constant product, `bytes` the encoding of fields,
//! and `laws` what holds of every quote.
#![allow(unused_imports)]

pub mod burst;
pub mod bytes;
pub mod curve;
pub mod fee;
pub mod laws;
pub mod program;
pub mod swap;

pub use crate::burst::after_swap;
pub use crate::program::{get_model_used, process_instruction, Response};
pub use crate::swap::compute_swap;
