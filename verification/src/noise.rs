//! Noise channels: which disturbance a noise configuration stands for. The
//! random draws and amplitude arithmetic that carry it out are the caller's.
use vstd::prelude::*;
use crate::circuit::{channels_fault, noise_fault, Matrix2x2, NoiseConfig, NoiseSpec, copy_indices};
use crate::error::{Error, Fault, fault_of, message_of};
use crate::kinds::{Axis, NoiseKind, axis_named, axis_of, noise_kind_named, noise_kind_of};
use crate::text::{join, joined, lemma_joined_small, to_upper, upper_text};

verus! {

/// The disturbance a noise configuration stands for on its target qubit.
#[derive(Debug)]
pub enum NoiseOperation {
    /// X with the given probability.
    BitFlip { probability: u64 },
    /// Z with the given probability.
    PhaseFlip { probability: u64 },
    /// A random Pauli with the given probability.
    Depolarizing { probability: u64 },
    /// Energy loss |1> -> |0> with rate `gamma`.
    AmplitudeDamping { gamma: u64 },
    /// Relaxation over time `dt` with times `t1`, `t2`.
    Relaxation { t1: u64, t2: u64, dt: u64 },
    /// A rotation by `angle` about `axis`.
    OverRotation { axis: Axis, angle: u64 },
    /// Z on each coupled qubit, each with the given probability.
    Crosstalk { coupled_qubits: Vec<usize>, probability: u64 },
    /// One of the Kraus operators, drawn by its weight.
    Kraus { operators: Vec<Matrix2x2> },
    /// Each of the configuration's channels, in order.
    Composite,
    /// Nothing now: readout errors act when the state is sampled.
    Readout,
}

/// The content of a noise operation.
pub enum NoiseOperationSpec {
    BitFlip { probability: u64 },
    PhaseFlip { probability: u64 },
    Depolarizing { probability: u64 },
    AmplitudeDamping { gamma: u64 },
    Relaxation { t1: u64, t2: u64, dt: u64 },
    OverRotation { axis: Axis, angle: u64 },
    Crosstalk { coupled_qubits: Seq<usize>, probability: u64 },
    Kraus { operators: Seq<Matrix2x2> },
    Composite,
    Readout,
}

impl View for NoiseOperation {
    type V = NoiseOperationSpec;

    open spec fn view(&self) -> NoiseOperationSpec {
        match self {
            NoiseOperation::BitFlip { probability } => NoiseOperationSpec::BitFlip {
                probability: *probability,
            },
            NoiseOperation::PhaseFlip { probability } => NoiseOperationSpec::PhaseFlip {
                probability: *probability,
            },
            NoiseOperation::Depolarizing { probability } => NoiseOperationSpec::Depolarizing {
                probability: *probability,
            },
            NoiseOperation::AmplitudeDamping { gamma } => NoiseOperationSpec::AmplitudeDamping {
                gamma: *gamma,
            },
            NoiseOperation::Relaxation { t1, t2, dt } => NoiseOperationSpec::Relaxation {
                t1: *t1,
                t2: *t2,
                dt: *dt,
            },
            NoiseOperation::OverRotation { axis, angle } => NoiseOperationSpec::OverRotation {
                axis: *axis,
                angle: *angle,
            },
            NoiseOperation::Crosstalk { coupled_qubits, probability } =>
                NoiseOperationSpec::Crosstalk {
                coupled_qubits: coupled_qubits@,
                probability: *probability,
            },
            NoiseOperation::Kraus { operators } => NoiseOperationSpec::Kraus {
                operators: operators@,
            },
            NoiseOperation::Composite => NoiseOperationSpec::Composite,
            NoiseOperation::Readout => NoiseOperationSpec::Readout,
        }
    }
}

/// The operation noise configuration `x`, whose upper-cased name is `u`,
/// stands for, or `None` when its data is incomplete or its name unknown.
pub open spec fn named_noise_operation(u: Seq<char>, x: NoiseSpec) -> Option<NoiseOperationSpec> {
    match noise_kind_named(u) {
        NoiseKind::BitFlip => Some(NoiseOperationSpec::BitFlip { probability: x.probability }),
        NoiseKind::PhaseFlip => Some(NoiseOperationSpec::PhaseFlip { probability: x.probability }),
        NoiseKind::Depolarizing => Some(
            NoiseOperationSpec::Depolarizing { probability: x.probability },
        ),
        NoiseKind::AmplitudeDamping => Some(
            NoiseOperationSpec::AmplitudeDamping { gamma: x.probability },
        ),
        NoiseKind::T1T2Relaxation => match (x.t1, x.t2, x.dt) {
            (Some(t1), Some(t2), Some(dt)) => Some(NoiseOperationSpec::Relaxation { t1, t2, dt }),
            _ => None,
        },
        NoiseKind::CoherentOverRotation => match x.angle {
            Some(angle) => match (match x.axis {
                Some(a) => axis_named(upper_text(a)),
                None => Some(Axis::Z),
            }) {
                Some(axis) => Some(NoiseOperationSpec::OverRotation { axis, angle }),
                None => None,
            },
            None => None,
        },
        NoiseKind::Crosstalk => match x.coupled_qubits {
            Some(q) => Some(
                NoiseOperationSpec::Crosstalk { coupled_qubits: q, probability: x.probability },
            ),
            None => None,
        },
        NoiseKind::Kraus => match x.kraus {
            Some(k) => if k.len() == 0 {
                None
            } else {
                Some(NoiseOperationSpec::Kraus { operators: k })
            },
            None => None,
        },
        NoiseKind::Composite => if x.channels is Some {
            Some(NoiseOperationSpec::Composite)
        } else {
            None
        },
        NoiseKind::ReadoutError => Some(NoiseOperationSpec::Readout),
        NoiseKind::Unknown => None,
    }
}

/// The operation a noise configuration stands for, or `None` when its data
/// is incomplete or its name unknown.
pub open spec fn noise_operation_of(x: NoiseSpec) -> Option<NoiseOperationSpec> {
    named_noise_operation(upper_text(x.noise_type), x)
}

fn noise_error(parts: &[&str]) -> (e: Error)
    ensures
        fault_of(e) == Fault::NoiseConfig,
        message_of(e) == joined(parts@),
{
    Error::InvalidNoiseConfig { reason: join(parts) }
}

/// The message with which noise configuration `x`, whose upper-cased name is
/// `u`, is rejected when it stands for no operation.
pub open spec fn noise_operation_message(u: Seq<char>, x: NoiseSpec) -> Seq<char> {
    match noise_kind_named(u) {
        NoiseKind::T1T2Relaxation => if x.t1 is None {
            "T1_T2_RELAXATION requires t1"@
        } else if x.t2 is None {
            "T1_T2_RELAXATION requires t2"@
        } else {
            "T1_T2_RELAXATION requires dt"@
        },
        NoiseKind::CoherentOverRotation => if x.angle is None {
            "COHERENT_OVER_ROTATION requires angle"@
        } else {
            "Invalid COHERENT_OVER_ROTATION axis: "@ + upper_text(x.axis->0)
        },
        NoiseKind::Crosstalk => "CROSSTALK requires coupled_qubits"@,
        NoiseKind::Kraus => if x.kraus is None {
            "KRAUS requires kraus operators"@
        } else {
            "KRAUS requires at least one operator"@
        },
        NoiseKind::Composite => "COMPOSITE requires channels"@,
        _ => "Unknown noise type: "@ + u,
    }
}

fn noise_message(m: &str) -> (e: Error)
    ensures
        fault_of(e) == Fault::NoiseConfig,
        message_of(e) == m@,
{
    proof {
        lemma_joined_small(m, "", "");
    }
    let parts = [m];
    assert(parts@ =~= seq![m]);
    noise_error(&parts)
}

fn noise_message2(a: &str, b: &str) -> (e: Error)
    ensures
        fault_of(e) == Fault::NoiseConfig,
        message_of(e) == a@ + b@,
{
    proof {
        lemma_joined_small(a, b, "");
    }
    noise_error(&[a, b])
}


/// The operation a noise configuration stands for.
pub fn noise_operation(noise: &NoiseConfig) -> (r: Result<NoiseOperation, Error>)
    ensures
        match r {
            Ok(op) => noise_operation_of(noise@) == Some(op@),
            Err(e) => {
                &&& noise_operation_of(noise@) is None
                &&& fault_of(e) == Fault::NoiseConfig
                &&& message_of(e) == noise_operation_message(upper_text(noise.noise_type@), noise@)
            },
        },
{
    let noise_type = to_upper(noise.noise_type.as_str());
    noise_operation_named(noise_type.as_str(), noise)
}

/// The operation a noise configuration stands for, given its upper-cased name.
pub fn noise_operation_named(noise_type: &str, noise: &NoiseConfig) -> (r: Result<NoiseOperation, Error>)
    ensures
        match r {
            Ok(op) => named_noise_operation(noise_type@, noise@) == Some(op@),
            Err(e) => {
                &&& named_noise_operation(noise_type@, noise@) is None
                &&& fault_of(e) == Fault::NoiseConfig
                &&& message_of(e) == noise_operation_message(noise_type@, noise@)
            },
        },
{
    match noise_kind_of(noise_type) {
        NoiseKind::BitFlip => Ok(NoiseOperation::BitFlip { probability: noise.probability }),
        NoiseKind::PhaseFlip => Ok(NoiseOperation::PhaseFlip { probability: noise.probability }),
        NoiseKind::Depolarizing => Ok(NoiseOperation::Depolarizing { probability: noise.probability }),
        NoiseKind::AmplitudeDamping => Ok(NoiseOperation::AmplitudeDamping { gamma: noise.probability }),
        NoiseKind::T1T2Relaxation => {
            let t1 = match noise.t1 {
                Some(v) => v,
                None => {
                    return Err(noise_message("T1_T2_RELAXATION requires t1"));
                },
            };
            let t2 = match noise.t2 {
                Some(v) => v,
                None => {
                    return Err(noise_message("T1_T2_RELAXATION requires t2"));
                },
            };
            let dt = match noise.dt {
                Some(v) => v,
                None => {
                    return Err(noise_message("T1_T2_RELAXATION requires dt"));
                },
            };
            Ok(NoiseOperation::Relaxation { t1, t2, dt })
        },
        NoiseKind::CoherentOverRotation => {
            let angle = match noise.angle {
                Some(v) => v,
                None => {
                    return Err(noise_message("COHERENT_OVER_ROTATION requires angle"));
                },
            };
            let axis = match &noise.axis {
                Some(a) => {
                    let upper = to_upper(a.as_str());
                    match axis_of(upper.as_str()) {
                        Some(axis) => axis,
                        None => {
                            return Err(
                                noise_message2("Invalid COHERENT_OVER_ROTATION axis: ", upper.as_str()),
                            );
                        },
                    }
                },
                None => Axis::Z,
            };
            Ok(NoiseOperation::OverRotation { axis, angle })
        },
        NoiseKind::Crosstalk => {
            match &noise.coupled_qubits {
                Some(q) => Ok(
                    NoiseOperation::Crosstalk {
                        coupled_qubits: copy_indices(q),
                        probability: noise.probability,
                    },
                ),
                None => Err(noise_message("CROSSTALK requires coupled_qubits")),
            }
        },
        NoiseKind::Kraus => {
            match &noise.kraus {
                Some(k) => {
                    if k.len() == 0 {
                        return Err(noise_message("KRAUS requires at least one operator"));
                    }
                    let mut operators: Vec<Matrix2x2> = Vec::new();
                    let mut i: usize = 0;
                    while i < k.len()
                        invariant
                            i <= k@.len(),
                            operators@ == k@.take(i as int),
                        decreases k@.len() - i,
                    {
                        operators.push(k[i]);
                        assert(k@.take(i as int + 1) =~= k@.take(i as int).push(k@[i as int]));
                        i = i + 1;
                    }
                    assert(k@.take(k@.len() as int) =~= k@);
                    Ok(NoiseOperation::Kraus { operators })
                },
                None => Err(noise_message("KRAUS requires kraus operators")),
            }
        },
        NoiseKind::Composite => {
            if noise.channels.is_none() {
                return Err(noise_message("COMPOSITE requires channels"));
            }
            Ok(NoiseOperation::Composite)
        },
        NoiseKind::ReadoutError => Ok(NoiseOperation::Readout),
        NoiseKind::Unknown => Err(noise_message2("Unknown noise type: ", noise_type)),
    }
}

// ---------------------------------------------------------------------------
// Laws

proof fn lemma_channels_fault_none(n: usize, ch: Seq<NoiseSpec>)
    requires
        channels_fault(n, ch) is None,
    ensures
        forall|i: int| 0 <= i < ch.len() ==> #[trigger] noise_fault(n, ch[i]) is None,
    decreases ch.len(),
{
    if ch.len() > 0 {
        lemma_channels_fault_none(n, ch.drop_first());
        assert forall|i: int| 0 <= i < ch.len() implies #[trigger] noise_fault(n, ch[i]) is None by {
            if i > 0 {
                assert(ch.drop_first()[i - 1] == ch[i]);
            }
        }
    }
}

/// Every noise name stands for the channel of that name, with the
/// configuration's own numbers: BIT_FLIP, PHASE_FLIP and DEPOLARIZING with its
/// probability, AMPLITUDE_DAMPING with its probability as rate, READOUT_ERROR
/// acting at sampling, T1_T2_RELAXATION with its times, COHERENT_OVER_ROTATION
/// about the named axis (Z when none is named), CROSSTALK on its coupled
/// qubits, KRAUS with its operators, COMPOSITE with its channels; an unknown
/// name stands for nothing.
pub proof fn lemma_noise_follows_name(u: Seq<char>, x: NoiseSpec)
    ensures
        ({
            let k = noise_kind_named(u);
            let r = named_noise_operation(u, x);
            let p = x.probability;
            &&& k == NoiseKind::BitFlip ==> r == Some(NoiseOperationSpec::BitFlip { probability: p })
            &&& k == NoiseKind::PhaseFlip ==> r == Some(
                NoiseOperationSpec::PhaseFlip { probability: p },
            )
            &&& k == NoiseKind::Depolarizing ==> r == Some(
                NoiseOperationSpec::Depolarizing { probability: p },
            )
            &&& k == NoiseKind::AmplitudeDamping ==> r == Some(
                NoiseOperationSpec::AmplitudeDamping { gamma: p },
            )
            &&& k == NoiseKind::ReadoutError ==> r == Some(NoiseOperationSpec::Readout)
            &&& k == NoiseKind::T1T2Relaxation && x.t1 is Some && x.t2 is Some && x.dt is Some ==> r
                == Some(
                NoiseOperationSpec::Relaxation { t1: x.t1->0, t2: x.t2->0, dt: x.dt->0 },
            )
            &&& k == NoiseKind::T1T2Relaxation && (x.t1 is None || x.t2 is None || x.dt is None)
                ==> r is None
            &&& k == NoiseKind::CoherentOverRotation && x.angle is Some && x.axis is None ==> r
                == Some(NoiseOperationSpec::OverRotation { axis: Axis::Z, angle: x.angle->0 })
            &&& k == NoiseKind::CoherentOverRotation && x.angle is Some && x.axis is Some
                && upper_text(x.axis->0) == "X"@ ==> r == Some(
                NoiseOperationSpec::OverRotation { axis: Axis::X, angle: x.angle->0 },
            )
            &&& k == NoiseKind::CoherentOverRotation && x.angle is Some && x.axis is Some
                && upper_text(x.axis->0) == "Y"@ ==> r == Some(
                NoiseOperationSpec::OverRotation { axis: Axis::Y, angle: x.angle->0 },
            )
            &&& k == NoiseKind::CoherentOverRotation && x.angle is Some && x.axis is Some
                && upper_text(x.axis->0) == "Z"@ ==> r == Some(
                NoiseOperationSpec::OverRotation { axis: Axis::Z, angle: x.angle->0 },
            )
            &&& k == NoiseKind::CoherentOverRotation && x.angle is None ==> r is None
            &&& k == NoiseKind::Crosstalk && x.coupled_qubits is Some ==> r == Some(
                NoiseOperationSpec::Crosstalk { coupled_qubits: x.coupled_qubits->0, probability: p },
            )
            &&& k == NoiseKind::Kraus && x.kraus is Some && x.kraus->0.len() > 0 ==> r == Some(
                NoiseOperationSpec::Kraus { operators: x.kraus->0 },
            )
            &&& k == NoiseKind::Composite && x.channels is Some ==> r == Some(
                NoiseOperationSpec::Composite,
            )
            &&& k == NoiseKind::Unknown ==> r is None
        }),
{
    reveal_strlit("X");
    reveal_strlit("Y");
    reveal_strlit("Z");
    assert("X"@[0] == 'X' && "Y"@[0] == 'Y' && "Z"@[0] == 'Z');
    assert("X"@ != "Y"@ && "X"@ != "Z"@ && "Y"@ != "Z"@);
}

/// A noise configuration that passes validation can be applied: it stands
/// for an operation, and so does every channel it composes.
pub proof fn lemma_valid_noise_runs(n: usize, x: NoiseSpec)
    requires
        noise_fault(n, x) is None,
    ensures
        noise_operation_of(x) is Some,
        noise_operation_of(x) == Some(NoiseOperationSpec::Composite) ==> forall|i: int|
            0 <= i < x.channels->0.len() ==> #[trigger] noise_fault(n, x.channels->0[i]) is None,
{
    if noise_operation_of(x) == Some(NoiseOperationSpec::Composite) {
        lemma_channels_fault_none(n, x.channels->0);
    }
}

} // verus!
