//! Core of a geodetic transformation engine: definition parsing, parameter
//! resolution, and operator composition.
//!
//! Textual operator definitions (in the compact "GYS" shorthand or a
//! YAML-like block form) are normalized into step lists, resolved against
//! per-operator schemas, and composed into invocable operator descriptions.
//! The numerical projection kernels consume the typed parameter records this
//! crate produces.

use vstd::prelude::*;

pub mod args;
pub mod block;
pub mod btmerc;
pub mod cart;
pub mod ctx;
pub mod error;
pub mod gys;
pub mod helmert;
pub mod kv;
pub mod laea;
pub mod noop;
pub mod op;
pub mod params;
pub mod tmerc;
pub mod txt;

pub use args::OperatorArgs;
pub use block::{block_steps_to_gys, BlockStep, BlockValue};
pub use ctx::Context;
pub use error::Error;
pub use gys::{GysArgs, GysResource};
pub use op::{Op, OpDescriptor};
pub use params::{OpParameter, ParsedParameters, RawParameters};

verus! {

/// The two directions a two-way operator may be applied in.
#[derive(Debug, PartialEq, Eq, Structural, Clone, Copy)]
pub enum Direction {
    Fwd,
    Inv,
}

} // verus!
