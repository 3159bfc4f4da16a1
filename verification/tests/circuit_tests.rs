use quantum_engine::circuit::{
    Circuit, ClassicalCondition, ComplexBits, GateInstruction, Matrix2x2, NoiseChecks, NoiseConfig,
};
use quantum_engine::error::Error;

fn gate(gate_type: &str, target: Option<usize>, control: Option<usize>) -> GateInstruction {
    GateInstruction {
        gate_type: gate_type.to_string(),
        target,
        control,
        controls: None,
        parameter: None,
        matrix: None,
        matrix_is_unitary: false,
        condition: None,
        cbit: None,
        repeat: None,
        noise: None,
    }
}

fn circuit(qubits: usize, gates: Vec<GateInstruction>) -> Circuit {
    Circuit { qubits, classical_bits: None, gates, global_noise: None, readout_noise: None }
}

fn noise(noise_type: &str, probability: f64) -> NoiseConfig {
    NoiseConfig {
        noise_type: noise_type.to_string(),
        probability: probability.to_bits(),
        channels: None,
        t1: None,
        t2: None,
        dt: None,
        angle: None,
        axis: None,
        coupled_qubits: None,
        kraus: None,
        checks: NoiseChecks {
            probability_in_range: (0.0..=1.0).contains(&probability),
            relaxation_times_valid: true,
            kraus_complete: true,
        },
    }
}

fn matrix(m: [[[f64; 2]; 2]; 2]) -> Matrix2x2 {
    let c = |z: [f64; 2]| ComplexBits { re: z[0].to_bits(), im: z[1].to_bits() };
    [[c(m[0][0]), c(m[0][1])], [c(m[1][0]), c(m[1][1])]]
}

/// The unitarity test the engine applies to a 2x2 matrix read from a circuit file.
fn is_unitary(m: [[[f64; 2]; 2]; 2]) -> bool {
    let mul_conj = |a: [f64; 2], b: [f64; 2]| [a[0] * b[0] + a[1] * b[1], a[1] * b[0] - a[0] * b[1]];
    let add = |a: [f64; 2], b: [f64; 2]| [a[0] + b[0], a[1] + b[1]];
    let norm = |a: [f64; 2]| (a[0] * a[0] + a[1] * a[1]).sqrt();
    let r00 = add(mul_conj(m[0][0], m[0][0]), mul_conj(m[0][1], m[0][1]));
    let r11 = add(mul_conj(m[1][0], m[1][0]), mul_conj(m[1][1], m[1][1]));
    let r01 = add(mul_conj(m[0][0], m[1][0]), mul_conj(m[0][1], m[1][1]));
    let r10 = add(mul_conj(m[1][0], m[0][0]), mul_conj(m[1][1], m[0][1]));
    let eps = 1e-8;
    norm([r00[0] - 1.0, r00[1]]) < eps
        && norm([r11[0] - 1.0, r11[1]]) < eps
        && norm(r01) < eps
        && norm(r10) < eps
}

fn unitary_gate(m: [[[f64; 2]; 2]; 2]) -> GateInstruction {
    let mut g = gate("UNITARY", Some(0), None);
    g.matrix = Some(matrix(m));
    g.matrix_is_unitary = is_unitary(m);
    g
}

#[test]
fn test_circuit_validation() {
    let circuit = circuit(2, vec![gate("H", Some(0), None), gate("CNOT", Some(1), Some(0))]);
    assert!(circuit.validate().is_ok());
    assert_eq!(circuit.qubits, 2);
    assert_eq!(circuit.gates.len(), 2);
}

#[test]
fn test_invalid_gate() {
    let circuit = circuit(2, vec![gate("CNOT", Some(0), None)]);
    assert!(circuit.validate().is_err());
}

#[test]
fn test_invalid_qubit_index() {
    let circuit = circuit(2, vec![gate("H", Some(5), None)]);
    assert!(circuit.validate().is_err());
}

#[test]
fn test_ccx_with_controls_list() {
    let mut g = gate("CCX", Some(2), None);
    g.controls = Some(vec![0, 1]);
    let circuit = circuit(3, vec![g]);
    assert!(circuit.validate().is_ok());
}

#[test]
fn test_unitary_gate_validation() {
    let circuit =
        circuit(1, vec![unitary_gate([[[0.0, 0.0], [1.0, 0.0]], [[1.0, 0.0], [0.0, 0.0]]])]);
    assert!(circuit.validate().is_ok());
}

#[test]
fn test_non_unitary_gate_rejected() {
    let circuit =
        circuit(1, vec![unitary_gate([[[1.0, 0.0], [1.0, 0.0]], [[0.0, 0.0], [1.0, 0.0]]])]);
    assert!(circuit.validate().is_err());
}

#[test]
fn test_measure_with_classical_target_and_condition() {
    let mut m = gate("MEASURE", Some(0), None);
    m.cbit = Some(2);
    let mut x = gate("X", Some(1), None);
    x.condition = Some(ClassicalCondition { register: 2, value: true });
    let mut circuit = circuit(2, vec![m, x]);
    circuit.classical_bits = Some(4);
    assert!(circuit.validate().is_ok());
}

#[test]
fn test_repeat_zero_rejected() {
    let mut x = gate("X", Some(0), None);
    x.repeat = Some(0);
    let circuit = circuit(1, vec![x]);
    assert!(circuit.validate().is_err());
}

#[test]
fn test_composite_noise_validation() {
    let mut composite = noise("COMPOSITE", 1.0);
    composite.channels = Some(vec![noise("BIT_FLIP", 0.1), noise("PHASE_FLIP", 0.2)]);
    let mut h = gate("H", Some(0), None);
    h.noise = Some(composite);
    let circuit = circuit(1, vec![h]);
    assert!(circuit.validate().is_ok());
}

#[test]
fn validate_reports_qubit_index_with_its_data() {
    let circuit = circuit(2, vec![gate("H", Some(5), None)]);
    match circuit.validate() {
        Err(Error::InvalidQubitIndex { index, max }) => {
            assert_eq!(index, 5);
            assert_eq!(max, 2);
        }
        other => panic!("unexpected {:?}", other),
    }
}

#[test]
fn validate_rejects_qubit_counts_outside_range() {
    assert!(matches!(circuit(0, vec![]).validate(), Err(Error::CircuitValidationError { .. })));
    assert!(matches!(circuit(31, vec![]).validate(), Err(Error::CircuitValidationError { .. })));
    assert!(circuit(30, vec![]).validate().is_ok());
}

#[test]
fn validate_accepts_lowercase_names() {
    let circuit = circuit(2, vec![gate("h", Some(0), None), gate("cx", Some(1), Some(0))]);
    assert!(circuit.validate().is_ok());
}

#[test]
fn validate_rejects_unknown_gate() {
    let circuit = circuit(1, vec![gate("FOO", Some(0), None)]);
    match circuit.validate() {
        Err(Error::CircuitValidationError { reason }) => {
            assert_eq!(reason, "Unknown gate type: FOO");
        }
        other => panic!("unexpected {:?}", other),
    }
}

#[test]
fn validate_message_names_gate_and_position() {
    let circuit = circuit(2, vec![gate("H", Some(0), None), gate("cnot", Some(0), None)]);
    match circuit.validate() {
        Err(Error::CircuitValidationError { reason }) => {
            assert_eq!(reason, "Gate CNOT at position 1 requires exactly 1 control qubit(s), got 0");
        }
        other => panic!("unexpected {:?}", other),
    }
}

#[test]
fn validate_rejects_control_equal_to_target() {
    let circuit = circuit(2, vec![gate("CNOT", Some(1), Some(1))]);
    assert!(matches!(circuit.validate(), Err(Error::CircuitValidationError { .. })));
}

#[test]
fn validate_rejects_duplicate_controls() {
    let mut g = gate("CCX", Some(2), None);
    g.controls = Some(vec![0, 0, 1]);
    let c = circuit(3, vec![g]);
    assert!(matches!(c.validate(), Err(Error::CircuitValidationError { .. })));
}

#[test]
fn validate_rejects_missing_parameter() {
    let c = circuit(1, vec![gate("RX", Some(0), None)]);
    assert!(matches!(c.validate(), Err(Error::CircuitValidationError { .. })));
    let mut g = gate("RX", Some(0), None);
    g.parameter = Some(0.5f64.to_bits());
    assert!(circuit(1, vec![g]).validate().is_ok());
}

#[test]
fn validate_swap_rules() {
    assert!(circuit(2, vec![gate("SWAP", Some(1), Some(0))]).validate().is_ok());
    assert!(circuit(2, vec![gate("SWAP", Some(1), None)]).validate().is_err());
    assert!(circuit(2, vec![gate("SWAP", Some(1), Some(1))]).validate().is_err());
    assert!(matches!(
        circuit(2, vec![gate("SWAP", Some(1), Some(4))]).validate(),
        Err(Error::InvalidQubitIndex { index: 4, max: 2 })
    ));
}

#[test]
fn validate_measure_cbit_defaults_to_target() {
    let mut c = circuit(3, vec![gate("MEASURE", Some(2), None)]);
    assert!(c.validate().is_ok());
    c.classical_bits = Some(2);
    assert!(c.validate().is_err());
}

#[test]
fn validate_rejects_zero_classical_bits() {
    let mut c = circuit(1, vec![]);
    c.classical_bits = Some(0);
    assert!(matches!(c.validate(), Err(Error::CircuitValidationError { .. })));
}

#[test]
fn validate_noise_rules() {
    let with_noise = |n: NoiseConfig| {
        let mut h = gate("H", Some(0), None);
        h.noise = Some(n);
        circuit(2, vec![h])
    };
    assert!(matches!(
        with_noise(noise("BIT_FLIP", 1.5)).validate(),
        Err(Error::InvalidNoiseConfig { .. })
    ));
    assert!(matches!(
        with_noise(noise("NOT_A_CHANNEL", 0.5)).validate(),
        Err(Error::InvalidNoiseConfig { .. })
    ));
    assert!(with_noise(noise("T1_T2_RELAXATION", 0.0)).validate().is_err());
    let mut relax = noise("T1_T2_RELAXATION", 0.0);
    relax.t1 = Some(1.0f64.to_bits());
    relax.t2 = Some(1.0f64.to_bits());
    relax.dt = Some(0.1f64.to_bits());
    assert!(with_noise(relax).validate().is_ok());
    let mut rotation = noise("COHERENT_OVER_ROTATION", 0.0);
    rotation.angle = Some(0.1f64.to_bits());
    rotation.axis = Some("q".to_string());
    assert!(with_noise(rotation).validate().is_err());
    let mut crosstalk = noise("CROSSTALK", 0.5);
    crosstalk.coupled_qubits = Some(vec![1, 7]);
    assert!(matches!(
        with_noise(crosstalk).validate(),
        Err(Error::InvalidQubitIndex { index: 7, max: 2 })
    ));
    let mut empty = noise("COMPOSITE", 1.0);
    empty.channels = Some(vec![]);
    assert!(with_noise(empty).validate().is_err());
}

#[test]
fn validate_readout_noise_must_contain_readout_error() {
    let mut c = circuit(1, vec![]);
    c.readout_noise = Some(noise("BIT_FLIP", 0.1));
    assert!(matches!(c.validate(), Err(Error::InvalidNoiseConfig { .. })));
    let mut composite = noise("COMPOSITE", 1.0);
    composite.channels = Some(vec![noise("bit_flip", 0.1), noise("readout_error", 0.2)]);
    c.readout_noise = Some(composite);
    assert!(c.validate().is_ok());
}

#[test]
fn validate_checks_global_noise_with_or_without_gates() {
    let mut c = circuit(1, vec![]);
    c.global_noise = Some(noise("UNKNOWN", 0.1));
    assert!(matches!(c.validate(), Err(Error::InvalidNoiseConfig { .. })));
    c.gates.push(gate("X", Some(0), None));
    assert!(c.validate().is_err());
}

#[test]
fn resolved_controls_merge_without_repeats() {
    let mut g = gate("CCX", Some(3), Some(1));
    g.controls = Some(vec![1, 2, 2, 0]);
    assert_eq!(g.resolved_controls(), vec![1, 2, 0]);
    assert_eq!(g.involved_qubits(), vec![1, 2, 0, 3]);
    let mut g2 = gate("X", Some(1), None);
    g2.controls = Some(vec![1]);
    assert_eq!(g2.involved_qubits(), vec![1]);
}

#[test]
fn description_counts_qubits_and_gates() {
    let c = circuit(2, vec![gate("H", Some(0), None), gate("CNOT", Some(1), Some(0))]);
    assert_eq!(c.description(), "Circuit: 2 qubits, 2 gates");
}

#[test]
fn clone_keeps_content() {
    let mut composite = noise("COMPOSITE", 1.0);
    composite.channels = Some(vec![noise("BIT_FLIP", 0.1)]);
    let mut h = gate("H", Some(0), None);
    h.noise = Some(composite);
    let c = circuit(1, vec![h]);
    let d = c.clone();
    assert_eq!(format!("{:?}", c), format!("{:?}", d));
}

#[test]
fn global_noise_is_checked_without_gates() {
    let mut c = circuit(1, vec![]);
    c.global_noise = Some(noise("BOGUS", 2.0));
    assert!(matches!(c.validate(), Err(Error::InvalidNoiseConfig { .. })));
    c.global_noise = Some(noise("BIT_FLIP", 0.1));
    assert!(c.validate().is_ok());
}

fn reason(c: &Circuit) -> String {
    match c.validate() {
        Err(Error::CircuitValidationError { reason }) => reason,
        Err(Error::InvalidNoiseConfig { reason }) => reason,
        other => panic!("unexpected {:?}", other),
    }
}

#[test]
fn validation_messages() {
    let mut g = gate("h", Some(0), None);
    g.repeat = Some(0);
    assert_eq!(reason(&circuit(2, vec![g])), "Gate H at position 0 has invalid repeat=0");
    let c = circuit(2, vec![gate("X", Some(0), None), gate("cnot", Some(1), None)]);
    assert_eq!(reason(&c), "Gate CNOT at position 1 requires exactly 1 control qubit(s), got 0");
    let mut m = gate("MEASURE", Some(0), None);
    m.cbit = Some(5);
    assert_eq!(
        reason(&circuit(2, vec![m])),
        "Gate MEASURE at position 0 references invalid classical bit 5 (max 1)"
    );
    assert_eq!(reason(&circuit(0, vec![])), "Invalid qubit count: 0. Must be between 1 and 30.");
    let mut c = circuit(1, vec![]);
    c.global_noise = Some(noise("bogus", 0.5));
    assert_eq!(reason(&c), "Unknown noise type: BOGUS");
    let mut rot = noise("coherent_over_rotation", 0.0);
    rot.angle = Some(0.1f64.to_bits());
    rot.axis = Some("w".to_string());
    c.global_noise = Some(rot);
    assert_eq!(reason(&c), "Invalid COHERENT_OVER_ROTATION axis: W");
    let c = circuit(2, vec![gate("CX", Some(1), Some(1))]);
    assert_eq!(reason(&c), "Gate CX at position 0: control and target must be different");
}
