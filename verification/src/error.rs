//! Errors reported by the engine.
use vstd::prelude::*;

verus! {

/// Result type for quantum engine operations.
pub type Result<T> = std::result::Result<T, Error>;

/// Errors that can occur while building, checking or running a circuit.
#[derive(Debug)]
pub enum Error {
    InvalidQubitIndex { index: usize, max: usize },
    InvalidGateParameters { reason: String },
    CircuitValidationError { reason: String },
    StateSizeMismatch { qubits: usize, actual: usize },
    /// A circuit description could not be read as JSON; holds the reader's message.
    JsonError(String),
    InvalidNoiseConfig { reason: String },
    MeasurementError { reason: String },
    SimulationError { reason: String },
    IndexOutOfBounds(String),
}

/// The kind of an error, with the data that identifies it but without its message.
pub enum Fault {
    QubitIndex { index: usize, max: usize },
    GateParameters,
    CircuitValidation,
    StateSize { qubits: usize, actual: usize },
    Json,
    NoiseConfig,
    Measurement,
    Simulation,
    OutOfBounds,
}

/// The kind of `e`.
pub open spec fn fault_of(e: Error) -> Fault {
    match e {
        Error::InvalidQubitIndex { index, max } => Fault::QubitIndex { index, max },
        Error::InvalidGateParameters { .. } => Fault::GateParameters,
        Error::CircuitValidationError { .. } => Fault::CircuitValidation,
        Error::StateSizeMismatch { qubits, actual } => Fault::StateSize { qubits, actual },
        Error::JsonError(_) => Fault::Json,
        Error::InvalidNoiseConfig { .. } => Fault::NoiseConfig,
        Error::MeasurementError { .. } => Fault::Measurement,
        Error::SimulationError { .. } => Fault::Simulation,
        Error::IndexOutOfBounds(_) => Fault::OutOfBounds,
    }
}

/// The text an error carries (empty for the errors that carry only numbers).
pub open spec fn message_of(e: Error) -> Seq<char> {
    match e {
        Error::InvalidGateParameters { reason } => reason@,
        Error::CircuitValidationError { reason } => reason@,
        Error::JsonError(m) => m@,
        Error::InvalidNoiseConfig { reason } => reason@,
        Error::MeasurementError { reason } => reason@,
        Error::SimulationError { reason } => reason@,
        Error::IndexOutOfBounds(m) => m@,
        _ => Seq::empty(),
    }
}

/// The kind of failure of `r`, or `None` for success.
pub open spec fn outcome<T>(r: std::result::Result<T, Error>) -> Option<Fault> {
    match r {
        Ok(_) => None,
        Err(e) => Some(fault_of(e)),
    }
}

} // verus!
