//! A small calculator core for fixed-width unsigned integers.
//!
//! The crate parses textual expressions over 8/16/32/64-bit unsigned
//! values, applies arithmetic and bitwise operators with explicit
//! overflow reporting, and renders results in several numeric bases.
//! Two surface grammars share the same numeric core: a flat form with
//! per-literal width suffixes (`1u8 + 1u8`) and a prefix stack-machine
//! form with an ambient width (`+ 2 2`).

pub mod ops;
pub mod text;
pub mod arith;
pub mod value;
pub mod flat;
pub mod tokenizer;
pub mod calc;
pub mod regview;
