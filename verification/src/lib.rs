//! State-vector quantum circuit engine: circuit description and validation,
//! circuit rewriting, execution planning, and the index arithmetic of the
//! state vector, with contracts checked by Verus.
use vstd::prelude::*;

pub mod error;
pub mod text;
pub mod kinds;
pub mod circuit;
pub mod optimizer;
pub mod runtime;
pub mod state;
pub mod simulator;
pub mod noise;
pub mod measurement;
pub mod analysis;
pub mod gates;

pub use circuit::Circuit;
pub use simulator::Simulator;
pub use error::{Error, Result};

verus! {

/// Version string for the engine.
pub const VERSION: &'static str = "0.1.0";

} // verus!
