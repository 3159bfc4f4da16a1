use num_complex::Complex64;
use quantum_engine::analysis::{bit_mask, pauli_terms, project_index, validate_subsystem};
use quantum_engine::circuit::{Circuit, ClassicalCondition, GateInstruction, NoiseChecks, NoiseConfig};
use quantum_engine::error::Error;
use quantum_engine::kinds::{axis_of, gate_kind_of, noise_kind_of, Axis, GateKind, NoiseKind};
use quantum_engine::noise::{noise_operation, NoiseOperation};
use quantum_engine::optimizer::pair_cancels;
use quantum_engine::simulator::{FixedGate, GateOperation, MatrixGate, SimulationConfig, Simulator};
use quantum_engine::state::QuantumState;
use quantum_engine::text::{join, same_text};
use quantum_engine::VERSION;

fn gate(gate_type: &str, target: Option<usize>, control: Option<usize>) -> GateInstruction {
    GateInstruction {
        gate_type: gate_type.to_string(),
        target,
        control,
        controls: None,
        parameter: None,
        matrix: None,
        matrix_is_unitary: false,
        condition: None,
        cbit: None,
        repeat: None,
        noise: None,
    }
}

fn noise(noise_type: &str, probability: f64) -> NoiseConfig {
    NoiseConfig {
        noise_type: noise_type.to_string(),
        probability: probability.to_bits(),
        channels: None,
        t1: None,
        t2: None,
        dt: None,
        angle: None,
        axis: None,
        coupled_qubits: None,
        kraus: None,
        checks: NoiseChecks {
            probability_in_range: true,
            relaxation_times_valid: true,
            kraus_complete: true,
        },
    }
}

fn circuit(qubits: usize, gates: Vec<GateInstruction>) -> Circuit {
    Circuit { qubits, classical_bits: None, gates, global_noise: None, readout_noise: None }
}

#[test]
fn version_string() {
    assert_eq!(VERSION, "0.1.0");
}

#[test]
fn text_helpers() {
    assert_eq!(join(&["a", "", "bc"]), "abc");
    assert!(same_text("CNOT", "CNOT"));
    assert!(!same_text("CNOT", "CNOt"));
}

#[test]
fn kind_names() {
    assert_eq!(gate_kind_of("CNOT"), GateKind::Cnot);
    assert_eq!(gate_kind_of("CX"), GateKind::Cnot);
    assert_eq!(gate_kind_of("UNITARY"), GateKind::Unitary);
    assert_eq!(gate_kind_of("cnot"), GateKind::Unknown);
    assert_eq!(noise_kind_of("BIT_FLIP"), NoiseKind::BitFlip);
    assert_eq!(noise_kind_of("READOUT_ERROR"), NoiseKind::ReadoutError);
    assert_eq!(noise_kind_of("NOPE"), NoiseKind::Unknown);
    assert_eq!(axis_of("Y"), Some(Axis::Y));
    assert_eq!(axis_of("W"), None);
}

#[test]
fn default_config() {
    let c = SimulationConfig::default();
    assert_eq!(c.shots, 1024);
    assert!(c.optimize);
    assert!(c.apply_noise);
    assert_eq!(c.seed, 0);
    let sim = Simulator::new(SimulationConfig { shots: 7, optimize: false, apply_noise: false, seed: 3 });
    assert_eq!(sim.config().shots, 7);
    assert_eq!(sim.config().seed, 3);
}

#[test]
fn conditions() {
    let reg = [false, true];
    assert_eq!(Simulator::condition_matches(None, &reg).unwrap(), true);
    let c = ClassicalCondition { register: 1, value: true };
    assert_eq!(Simulator::condition_matches(Some(&c), &reg).unwrap(), true);
    let c = ClassicalCondition { register: 0, value: true };
    assert_eq!(Simulator::condition_matches(Some(&c), &reg).unwrap(), false);
    let c = ClassicalCondition { register: 2, value: true };
    match Simulator::condition_matches(Some(&c), &reg) {
        Err(Error::SimulationError { reason }) => {
            assert_eq!(reason, "Condition register 2 out of bounds (max 1)")
        }
        other => panic!("unexpected {:?}", other),
    }
}

#[test]
fn repeats() {
    let mut g = gate("X", Some(0), None);
    assert_eq!(Simulator::repeat_count(&g), 1);
    g.repeat = Some(3);
    assert_eq!(Simulator::repeat_count(&g), 3);
}

#[test]
fn gate_operations() {
    match Simulator::gate_operation(&gate("h", Some(1), None)).unwrap() {
        GateOperation::Single { gate: MatrixGate::Fixed(FixedGate::H), target: 1 } => {}
        other => panic!("unexpected {:?}", other),
    }
    let mut cx = gate("X", Some(2), None);
    cx.controls = Some(vec![0, 1]);
    match Simulator::gate_operation(&cx).unwrap() {
        GateOperation::Controlled { gate: MatrixGate::Fixed(FixedGate::X), controls, target: 2 } => {
            assert_eq!(controls, vec![0, 1])
        }
        other => panic!("unexpected {:?}", other),
    }
    match Simulator::gate_operation(&gate("CNOT", Some(1), Some(0))).unwrap() {
        GateOperation::Cnot { control: 0, target: 1 } => {}
        other => panic!("unexpected {:?}", other),
    }
    let mut rz = gate("RZ", Some(0), None);
    rz.parameter = Some(1.5f64.to_bits());
    match Simulator::gate_operation(&rz).unwrap() {
        GateOperation::Single { gate: MatrixGate::Rotation(Axis::Z, p), target: 0 } => {
            assert_eq!(f64::from_bits(p), 1.5)
        }
        other => panic!("unexpected {:?}", other),
    }
    match Simulator::gate_operation(&gate("MEASURE", Some(2), None)).unwrap() {
        GateOperation::Measure { target: 2, cbit: 2 } => {}
        other => panic!("unexpected {:?}", other),
    }
    match Simulator::gate_operation(&gate("SWAP", Some(1), Some(0))).unwrap() {
        GateOperation::Swap { qubit1: 0, qubit2: 1 } => {}
        other => panic!("unexpected {:?}", other),
    }
    assert!(matches!(Simulator::gate_operation(&gate("BARRIER", None, None)), Ok(GateOperation::Barrier)));
    assert!(matches!(Simulator::gate_operation(&gate("FOO", Some(0), None)), Err(Error::SimulationError { .. })));
    assert!(matches!(Simulator::gate_operation(&gate("RX", Some(0), None)), Err(Error::SimulationError { .. })));
    assert!(matches!(Simulator::gate_operation(&gate("CNOT", Some(1), None)), Err(Error::SimulationError { .. })));
}

#[test]
fn measurement_records() {
    let mut reg = vec![false, false];
    Simulator::record_measurement(&mut reg, 1, true).unwrap();
    assert_eq!(reg, vec![false, true]);
    assert!(Simulator::record_measurement(&mut reg, 2, true).is_err());
    assert_eq!(reg, vec![false, true]);
}

#[test]
fn classical_register_size() {
    let mut c = circuit(3, vec![]);
    assert_eq!(Simulator::initial_classical_state(&c), vec![false; 3]);
    c.classical_bits = Some(5);
    assert_eq!(Simulator::initial_classical_state(&c), vec![false; 5]);
}

#[test]
fn noise_selection() {
    let on = Simulator::new(SimulationConfig::default());
    let off = Simulator::new(SimulationConfig { apply_noise: false, ..SimulationConfig::default() });
    let mut c = circuit(1, vec![]);
    c.global_noise = Some(noise("PHASE_FLIP", 0.2));
    let plain = gate("X", Some(0), None);
    let mut own = gate("X", Some(0), None);
    own.noise = Some(noise("BIT_FLIP", 0.1));
    assert_eq!(on.noise_for(&plain, &c).unwrap().noise_type, "PHASE_FLIP");
    assert_eq!(on.noise_for(&own, &c).unwrap().noise_type, "BIT_FLIP");
    assert!(off.noise_for(&own, &c).is_none());
    assert!(on.noise_for(&gate("BARRIER", None, None), &c).is_none());
}

#[test]
fn noise_operations() {
    match noise_operation(&noise("bit_flip", 0.25)).unwrap() {
        NoiseOperation::BitFlip { probability } => assert_eq!(f64::from_bits(probability), 0.25),
        other => panic!("unexpected {:?}", other),
    }
    assert!(matches!(noise_operation(&noise("READOUT_ERROR", 0.1)), Ok(NoiseOperation::Readout)));
    let mut rot = noise("COHERENT_OVER_ROTATION", 0.0);
    rot.angle = Some(0.3f64.to_bits());
    assert!(matches!(noise_operation(&rot), Ok(NoiseOperation::OverRotation { axis: Axis::Z, .. })));
    rot.axis = Some("x".to_string());
    assert!(matches!(noise_operation(&rot), Ok(NoiseOperation::OverRotation { axis: Axis::X, .. })));
    rot.axis = Some("w".to_string());
    assert!(matches!(noise_operation(&rot), Err(Error::InvalidNoiseConfig { .. })));
    assert!(matches!(noise_operation(&noise("T1_T2_RELAXATION", 0.0)), Err(Error::InvalidNoiseConfig { .. })));
    assert!(matches!(noise_operation(&noise("COMPOSITE", 0.0)), Err(Error::InvalidNoiseConfig { .. })));
    assert!(matches!(noise_operation(&noise("SOMETHING", 0.0)), Err(Error::InvalidNoiseConfig { .. })));
    let mut ct = noise("CROSSTALK", 0.5);
    ct.coupled_qubits = Some(vec![1, 2]);
    match noise_operation(&ct).unwrap() {
        NoiseOperation::Crosstalk { coupled_qubits, .. } => assert_eq!(coupled_qubits, vec![1, 2]),
        other => panic!("unexpected {:?}", other),
    }
}

#[test]
fn subsystem_checks() {
    let state: QuantumState<u8> = QuantumState::new(3, 0, 1).unwrap();
    assert!(validate_subsystem(&state, &[0, 2]).is_ok());
    assert!(matches!(validate_subsystem(&state, &[]), Err(Error::MeasurementError { .. })));
    assert!(matches!(validate_subsystem(&state, &[3]), Err(Error::InvalidQubitIndex { index: 3, max: 3 })));
    assert!(matches!(validate_subsystem(&state, &[1, 1]), Err(Error::MeasurementError { .. })));
}

#[test]
fn masks_and_projections() {
    assert_eq!(bit_mask(&[]), 0);
    assert_eq!(bit_mask(&[0, 3]), 0b1001);
    assert_eq!(bit_mask(&[1, 1]), 0b10);
    // bits 2 and 0 of 0b101 read in the order [2, 0]
    assert_eq!(project_index(0b101, &[2, 0]), 0b11);
    assert_eq!(project_index(0b100, &[0, 2]), 0b10);
    assert_eq!(project_index(0b111, &[]), 0);
}

#[test]
fn pauli_string_terms() {
    let state: QuantumState<u8> = QuantumState::new(2, 0, 1).unwrap();
    let zz = pauli_terms(&state, "ZZ").unwrap();
    assert_eq!(zz, vec![(0, 0), (1, 2), (2, 2), (3, 0)]);
    // last character acts on qubit 0
    let xy = pauli_terms(&state, "XY").unwrap();
    assert_eq!(xy, vec![(3, 3), (2, 1), (1, 3), (0, 1)]);
    let ii = pauli_terms(&state, "II").unwrap();
    assert_eq!(ii, vec![(0, 0), (1, 0), (2, 0), (3, 0)]);
    match pauli_terms(&state, "ZZZ") {
        Err(Error::MeasurementError { reason }) => {
            assert_eq!(reason, "Pauli string length 3 does not match qubit count 2")
        }
        other => panic!("unexpected {:?}", other),
    }
    match pauli_terms(&state, "XA") {
        Err(Error::MeasurementError { reason }) => {
            assert_eq!(reason, "Invalid Pauli operator 'A'. Use only I/X/Y/Z")
        }
        other => panic!("unexpected {:?}", other),
    }
    // two bytes, one character: the length is counted in bytes
    assert!(matches!(pauli_terms(&state, "é"), Err(Error::MeasurementError { .. })));
}

#[test]
fn pauli_strings_are_self_inverse() {
    let state: QuantumState<u8> = QuantumState::new(3, 0, 1).unwrap();
    for p in ["XYZ", "YYI", "ZXY", "III"] {
        let terms = pauli_terms(&state, p).unwrap();
        for (i, &(m, phase)) in terms.iter().enumerate() {
            assert_eq!(terms[m].0, i);
            assert_eq!((phase + terms[m].1) % 4, 0);
        }
    }
}

#[test]
fn decisions_on_given_names() {
    match Simulator::gate_operation_named("CX", &gate("cx", Some(1), Some(0))).unwrap() {
        GateOperation::Cnot { control: 0, target: 1 } => {}
        other => panic!("unexpected {:?}", other),
    }
    assert!(Simulator::gate_operation_named("cx", &gate("cx", Some(1), Some(0))).is_err());
    assert!(matches!(
        quantum_engine::noise::noise_operation_named("PHASE_FLIP", &noise("x", 0.5)),
        Ok(NoiseOperation::PhaseFlip { .. })
    ));
    let c = circuit(2, vec![]);
    assert!(c.validate_gate_named("H", &gate("h", Some(1), None), 0).is_ok());
    assert!(c.validate_gate_named("H", &gate("h", Some(2), None), 0).is_err());
    assert!(c.validate_noise_named("BIT_FLIP", &noise("bit_flip", 0.2)).is_ok());
    assert!(c.validate_noise_named("NOPE", &noise("bit_flip", 0.2)).is_err());
    assert!(pair_cancels("H", "H", &gate("h", Some(0), None), &gate("H", Some(0), None)));
    assert!(!pair_cancels("S", "S", &gate("s", Some(0), None), &gate("s", Some(0), None)));
    assert!(!pair_cancels("X", "X", &gate("x", Some(1), Some(0)), &gate("x", Some(1), None)));
}

#[test]
fn expectation_of_y_on_plus_i_state() {
    let s = std::f64::consts::FRAC_1_SQRT_2;
    let mut state = QuantumState::new(1, Complex64::new(0.0, 0.0), Complex64::new(1.0, 0.0)).unwrap();
    state.set_amplitudes(vec![Complex64::new(s, 0.0), Complex64::new(0.0, s)]);
    let powers = [
        Complex64::new(1.0, 0.0),
        Complex64::new(0.0, 1.0),
        Complex64::new(-1.0, 0.0),
        Complex64::new(0.0, -1.0),
    ];
    let amps = state.amplitudes_copy();
    let expectation = |p: &str| {
        let terms = pauli_terms(&state, p).unwrap();
        let mut e = Complex64::new(0.0, 0.0);
        for (idx, &(m, ph)) in terms.iter().enumerate() {
            e += amps[idx].conj() * powers[ph as usize] * amps[m];
        }
        e.re
    };
    assert!((expectation("Y") - 1.0).abs() < 1e-10);
    assert!(expectation("X").abs() < 1e-10);
    assert!(expectation("Z").abs() < 1e-10);
    assert!((expectation("I") - 1.0).abs() < 1e-10);
}

#[test]
fn operation_messages() {
    match Simulator::gate_operation(&gate("rx", Some(0), None)) {
        Err(Error::SimulationError { reason }) => assert_eq!(reason, "RX gate requires parameter"),
        other => panic!("unexpected {:?}", other),
    }
    match Simulator::gate_operation(&gate("measure", None, None)) {
        Err(Error::SimulationError { reason }) => assert_eq!(reason, "MEASURE gate requires target"),
        other => panic!("unexpected {:?}", other),
    }
    match Simulator::gate_operation(&gate("foo", Some(0), None)) {
        Err(Error::SimulationError { reason }) => assert_eq!(reason, "Unknown gate: FOO"),
        other => panic!("unexpected {:?}", other),
    }
    match noise_operation(&noise("kraus", 0.0)) {
        Err(Error::InvalidNoiseConfig { reason }) => assert_eq!(reason, "KRAUS requires kraus operators"),
        other => panic!("unexpected {:?}", other),
    }
}

#[test]
fn more_messages() {
    let state: QuantumState<u8> = QuantumState::new(3, 0, 1).unwrap();
    match validate_subsystem(&state, &[0, 2, 0]) {
        Err(Error::MeasurementError { reason }) => assert_eq!(reason, "Subsystem contains duplicate qubit 0"),
        other => panic!("unexpected {:?}", other),
    }
    let mut reg = vec![false];
    match Simulator::record_measurement(&mut reg, 4, true) {
        Err(Error::SimulationError { reason }) => assert_eq!(reason, "MEASURE cbit 4 out of bounds"),
        other => panic!("unexpected {:?}", other),
    }
    // the operator reported is the last invalid one
    match pauli_terms(&state, "AXB") {
        Err(Error::MeasurementError { reason }) => {
            assert_eq!(reason, "Invalid Pauli operator 'B'. Use only I/X/Y/Z")
        }
        other => panic!("unexpected {:?}", other),
    }
}
