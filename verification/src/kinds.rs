//! Gate, noise and axis names understood by the engine.
use vstd::prelude::*;
use crate::text::same_text;

verus! {

/// A gate name after upper-casing.
#[derive(Debug, Clone, Copy, PartialEq, Eq, Structural)]
pub enum GateKind {
    X,
    Y,
    Z,
    H,
    S,
    T,
    Rx,
    Ry,
    Rz,
    Cnot,
    Cz,
    Cp,
    Ccx,
    Swap,
    Measure,
    Reset,
    Barrier,
    Unitary,
    Unknown,
}

/// Kind of gate denoted by an upper-cased name.
pub open spec fn gate_kind_named(u: Seq<char>) -> GateKind {
    if u == "X"@ {
        GateKind::X
    } else if u == "Y"@ {
        GateKind::Y
    } else if u == "Z"@ {
        GateKind::Z
    } else if u == "H"@ {
        GateKind::H
    } else if u == "S"@ {
        GateKind::S
    } else if u == "T"@ {
        GateKind::T
    } else if u == "RX"@ {
        GateKind::Rx
    } else if u == "RY"@ {
        GateKind::Ry
    } else if u == "RZ"@ {
        GateKind::Rz
    } else if u == "CNOT"@ || u == "CX"@ {
        GateKind::Cnot
    } else if u == "CZ"@ {
        GateKind::Cz
    } else if u == "CP"@ {
        GateKind::Cp
    } else if u == "CCX"@ {
        GateKind::Ccx
    } else if u == "SWAP"@ {
        GateKind::Swap
    } else if u == "MEASURE"@ {
        GateKind::Measure
    } else if u == "RESET"@ {
        GateKind::Reset
    } else if u == "BARRIER"@ {
        GateKind::Barrier
    } else if u == "U"@ || u == "UNITARY"@ {
        GateKind::Unitary
    } else {
        GateKind::Unknown
    }
}

/// Classifies an upper-cased gate name.
pub fn gate_kind_of(u: &str) -> (k: GateKind)
    ensures
        k == gate_kind_named(u@),
{
    if same_text(u, "X") {
        GateKind::X
    } else if same_text(u, "Y") {
        GateKind::Y
    } else if same_text(u, "Z") {
        GateKind::Z
    } else if same_text(u, "H") {
        GateKind::H
    } else if same_text(u, "S") {
        GateKind::S
    } else if same_text(u, "T") {
        GateKind::T
    } else if same_text(u, "RX") {
        GateKind::Rx
    } else if same_text(u, "RY") {
        GateKind::Ry
    } else if same_text(u, "RZ") {
        GateKind::Rz
    } else if same_text(u, "CNOT") || same_text(u, "CX") {
        GateKind::Cnot
    } else if same_text(u, "CZ") {
        GateKind::Cz
    } else if same_text(u, "CP") {
        GateKind::Cp
    } else if same_text(u, "CCX") {
        GateKind::Ccx
    } else if same_text(u, "SWAP") {
        GateKind::Swap
    } else if same_text(u, "MEASURE") {
        GateKind::Measure
    } else if same_text(u, "RESET") {
        GateKind::Reset
    } else if same_text(u, "BARRIER") {
        GateKind::Barrier
    } else if same_text(u, "U") || same_text(u, "UNITARY") {
        GateKind::Unitary
    } else {
        GateKind::Unknown
    }
}

/// A noise channel name after upper-casing.
#[derive(Debug, Clone, Copy, PartialEq, Eq, Structural)]
pub enum NoiseKind {
    BitFlip,
    PhaseFlip,
    Depolarizing,
    AmplitudeDamping,
    ReadoutError,
    T1T2Relaxation,
    CoherentOverRotation,
    Crosstalk,
    Kraus,
    Composite,
    Unknown,
}

/// The channel that an upper-cased name denotes.
pub open spec fn noise_kind_named(u: Seq<char>) -> NoiseKind {
    if u == "BIT_FLIP"@ {
        NoiseKind::BitFlip
    } else if u == "PHASE_FLIP"@ {
        NoiseKind::PhaseFlip
    } else if u == "DEPOLARIZING"@ {
        NoiseKind::Depolarizing
    } else if u == "AMPLITUDE_DAMPING"@ {
        NoiseKind::AmplitudeDamping
    } else if u == "READOUT_ERROR"@ {
        NoiseKind::ReadoutError
    } else if u == "T1_T2_RELAXATION"@ {
        NoiseKind::T1T2Relaxation
    } else if u == "COHERENT_OVER_ROTATION"@ {
        NoiseKind::CoherentOverRotation
    } else if u == "CROSSTALK"@ {
        NoiseKind::Crosstalk
    } else if u == "KRAUS"@ {
        NoiseKind::Kraus
    } else if u == "COMPOSITE"@ {
        NoiseKind::Composite
    } else {
        NoiseKind::Unknown
    }
}

/// Classifies an upper-cased noise channel name.
pub fn noise_kind_of(u: &str) -> (k: NoiseKind)
    ensures
        k == noise_kind_named(u@),
{
    if same_text(u, "BIT_FLIP") {
        NoiseKind::BitFlip
    } else if same_text(u, "PHASE_FLIP") {
        NoiseKind::PhaseFlip
    } else if same_text(u, "DEPOLARIZING") {
        NoiseKind::Depolarizing
    } else if same_text(u, "AMPLITUDE_DAMPING") {
        NoiseKind::AmplitudeDamping
    } else if same_text(u, "READOUT_ERROR") {
        NoiseKind::ReadoutError
    } else if same_text(u, "T1_T2_RELAXATION") {
        NoiseKind::T1T2Relaxation
    } else if same_text(u, "COHERENT_OVER_ROTATION") {
        NoiseKind::CoherentOverRotation
    } else if same_text(u, "CROSSTALK") {
        NoiseKind::Crosstalk
    } else if same_text(u, "KRAUS") {
        NoiseKind::Kraus
    } else if same_text(u, "COMPOSITE") {
        NoiseKind::Composite
    } else {
        NoiseKind::Unknown
    }
}

/// A rotation axis.
#[derive(Debug, Clone, Copy, PartialEq, Eq, Structural)]
pub enum Axis {
    X,
    Y,
    Z,
}

/// The axis that an upper-cased name denotes, if any.
pub open spec fn axis_named(u: Seq<char>) -> Option<Axis> {
    if u == "X"@ {
        Some(Axis::X)
    } else if u == "Y"@ {
        Some(Axis::Y)
    } else if u == "Z"@ {
        Some(Axis::Z)
    } else {
        None
    }
}

/// Classifies an upper-cased axis name.
pub fn axis_of(u: &str) -> (a: Option<Axis>)
    ensures
        a == axis_named(u@),
{
    if same_text(u, "X") {
        Some(Axis::X)
    } else if same_text(u, "Y") {
        Some(Axis::Y)
    } else if same_text(u, "Z") {
        Some(Axis::Z)
    } else {
        None
    }
}

} // verus!
