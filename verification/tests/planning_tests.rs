use quantum_engine::circuit::{Circuit, GateInstruction};
use quantum_engine::measurement::{count_outcomes, format_bitstring};
use quantum_engine::optimizer::{
    circuit_depth, count_two_qubit_gates, fuse_single_qubit_gates, is_single_qubit_gate,
    optimize_circuit, remove_self_inverses,
};
use quantum_engine::runtime::{ExecutionPlan, GateLayer};

fn gate(gate_type: &str, target: Option<usize>, control: Option<usize>) -> GateInstruction {
    GateInstruction {
        gate_type: gate_type.to_string(),
        target,
        control,
        controls: None,
        parameter: None,
        matrix: None,
        matrix_is_unitary: false,
        condition: None,
        cbit: None,
        repeat: None,
        noise: None,
    }
}

fn circuit(qubits: usize, gates: Vec<GateInstruction>) -> Circuit {
    Circuit { qubits, classical_bits: None, gates, global_noise: None, readout_noise: None }
}

fn types(c: &Circuit) -> Vec<String> {
    c.gates.iter().map(|g| g.gate_type.clone()).collect()
}

#[test]
fn test_bitstring_format() {
    assert_eq!(format_bitstring(0, 2), "00");
    assert_eq!(format_bitstring(1, 2), "01");
    assert_eq!(format_bitstring(2, 2), "10");
    assert_eq!(format_bitstring(3, 2), "11");
}

#[test]
fn test_remove_self_inverses() {
    let circuit = circuit(1, vec![gate("H", Some(0), None), gate("H", Some(0), None)]);
    let optimized = remove_self_inverses(&circuit).unwrap();
    assert_eq!(optimized.gates.len(), 0);
}

#[test]
fn test_circuit_depth() {
    let circuit = circuit(2, vec![gate("H", Some(0), None), gate("CNOT", Some(1), Some(0))]);
    assert_eq!(circuit_depth(&circuit), 2);
}

#[test]
fn test_gate_layer_conflict() {
    let gate1 = gate("H", Some(0), None);
    let gate2 = gate("H", Some(0), None);
    let mut layer = GateLayer { gates: vec![] };
    layer.add(gate1);
    assert!(!layer.can_add(&gate2));
}

#[test]
fn test_gate_layer_parallel() {
    let gate1 = gate("H", Some(0), None);
    let gate2 = gate("H", Some(1), None);
    let mut layer = GateLayer { gates: vec![] };
    layer.add(gate1);
    assert!(layer.can_add(&gate2));
}

#[test]
fn test_execution_plan() {
    let circuit = circuit(
        2,
        vec![gate("H", Some(0), None), gate("H", Some(1), None), gate("CNOT", Some(1), Some(0))],
    );
    let plan = ExecutionPlan::from_circuit(&circuit).unwrap();
    assert!(plan.layers.len() <= 3);
}

// ---------------------------------------------------------------------------

#[test]
fn bitstring_edges() {
    assert_eq!(format_bitstring(5, 0), "");
    assert_eq!(format_bitstring(5, 4), "0101");
    assert_eq!(format_bitstring(6, 2), "10");
}

#[test]
fn cancellation_does_not_look_back() {
    // X X in the middle cancels; the H H it leaves behind meet only after the scan passed them
    let c = circuit(
        1,
        vec![gate("H", Some(0), None), gate("X", Some(0), None), gate("X", Some(0), None), gate("H", Some(0), None)],
    );
    let o = remove_self_inverses(&c).unwrap();
    assert_eq!(types(&o), vec!["H", "H"]);
}

#[test]
fn cancellation_rules() {
    // different targets, non-self-inverse gates, and noisy gates stay
    let mut noisy = gate("Z", Some(0), None);
    noisy.noise = Some(quantum_engine::circuit::NoiseConfig {
        noise_type: "BIT_FLIP".to_string(),
        probability: 0.1f64.to_bits(),
        channels: None,
        t1: None,
        t2: None,
        dt: None,
        angle: None,
        axis: None,
        coupled_qubits: None,
        kraus: None,
        checks: quantum_engine::circuit::NoiseChecks {
            probability_in_range: true,
            relaxation_times_valid: true,
            kraus_complete: true,
        },
    });
    let c = circuit(
        2,
        vec![
            gate("h", Some(0), None),
            gate("H", Some(1), None),
            gate("S", Some(0), None),
            gate("S", Some(0), None),
            noisy,
            gate("Z", Some(0), None),
            gate("y", Some(1), None),
            gate("Y", Some(1), None),
        ],
    );
    let o = optimize_circuit(&c).unwrap();
    assert_eq!(types(&o), vec!["h", "H", "S", "S", "Z", "Z"]);
    assert_eq!(o.qubits, 2);
}

#[test]
fn fusion_keeps_every_gate() {
    let c = circuit(2, vec![gate("H", Some(0), None), gate("T", Some(0), None), gate("CNOT", Some(1), Some(0))]);
    let f = fuse_single_qubit_gates(&c).unwrap();
    assert_eq!(types(&f), vec!["H", "T", "CNOT"]);
}

#[test]
fn single_qubit_names() {
    for name in ["X", "Y", "Z", "H", "S", "T", "RX", "RY", "RZ"] {
        assert!(is_single_qubit_gate(name));
    }
    for name in ["CNOT", "CZ", "SWAP", "MEASURE", "h", "FOO"] {
        assert!(!is_single_qubit_gate(name));
    }
}

#[test]
fn depth_of_parallel_and_serial_gates() {
    let c = circuit(
        3,
        vec![
            gate("H", Some(0), None),
            gate("H", Some(1), None),
            gate("H", Some(2), None),
            gate("CNOT", Some(1), Some(0)),
            gate("CNOT", Some(2), Some(1)),
        ],
    );
    assert_eq!(circuit_depth(&c), 3);
    assert_eq!(circuit_depth(&circuit(2, vec![])), 0);
}

#[test]
fn two_qubit_gate_count() {
    let mut ccx = gate("CCX", Some(2), None);
    ccx.controls = Some(vec![0, 1]);
    let c = circuit(
        3,
        vec![gate("H", Some(0), None), gate("CNOT", Some(1), Some(0)), ccx, gate("SWAP", Some(2), Some(1))],
    );
    assert_eq!(count_two_qubit_gates(&c), 2);
}

#[test]
fn first_fit_layering() {
    let c = circuit(
        3,
        vec![
            gate("H", Some(0), None),
            gate("CNOT", Some(1), Some(0)),
            gate("H", Some(2), None),
            gate("X", Some(0), None),
        ],
    );
    let plan = ExecutionPlan::from_circuit(&c).unwrap();
    assert_eq!(plan.num_layers(), 3);
    assert_eq!(plan.total_gates(), 4);
    let layer_types: Vec<Vec<String>> = plan
        .layers
        .iter()
        .map(|l| l.gates.iter().map(|g| g.gate_type.clone()).collect())
        .collect();
    assert_eq!(layer_types, vec![vec!["H", "H"], vec!["CNOT"], vec!["X"]]);
}

#[test]
fn empty_plan() {
    let plan = ExecutionPlan::from_circuit(&circuit(1, vec![])).unwrap();
    assert_eq!(plan.num_layers(), 0);
    assert_eq!(plan.total_gates(), 0);
}

#[test]
fn tallies_of_samples() {
    let counts = count_outcomes(&[0, 3, 3, 1, 3], 4);
    assert_eq!(counts, vec![1, 1, 0, 3]);
    assert_eq!(counts.iter().sum::<usize>(), 5);
    assert_eq!(count_outcomes(&[], 2), vec![0, 0]);
}

fn layer_types(plan: &ExecutionPlan) -> Vec<Vec<String>> {
    plan.layers.iter().map(|l| l.gates.iter().map(|g| g.gate_type.clone()).collect()).collect()
}

#[test]
fn plan_keeps_dependency_order() {
    // X(1) shares qubit 1 with the CNOT before it, so it comes after the CNOT
    let c = circuit(2, vec![gate("H", Some(0), None), gate("CNOT", Some(1), Some(0)), gate("X", Some(1), None)]);
    let plan = ExecutionPlan::from_circuit(&c).unwrap();
    assert_eq!(layer_types(&plan), vec![vec!["H"], vec!["CNOT"], vec!["X"]]);
    let c = circuit(2, vec![gate("X", Some(0), None), gate("CNOT", Some(0), Some(1)), gate("X", Some(1), None)]);
    let plan = ExecutionPlan::from_circuit(&c).unwrap();
    assert_eq!(layer_types(&plan), vec![vec!["X"], vec!["CNOT"], vec!["X"]]);
    // a gate with no earlier conflict joins the first layer
    let c = circuit(3, vec![gate("H", Some(0), None), gate("CNOT", Some(1), Some(0)), gate("H", Some(2), None)]);
    let plan = ExecutionPlan::from_circuit(&c).unwrap();
    assert_eq!(layer_types(&plan), vec![vec!["H", "H"], vec!["CNOT"]]);
}

#[test]
fn layer_conflicts_count_the_controls_list() {
    let mut layer = GateLayer { gates: vec![] };
    layer.add(gate("H", Some(0), None));
    let mut ccx = gate("CCX", Some(2), None);
    ccx.controls = Some(vec![0, 1]);
    assert!(!layer.can_add(&ccx));
    assert!(!layer.can_add(&gate("H", Some(0), None)));
    assert!(layer.can_add(&gate("H", Some(1), None)));
}

#[test]
fn controlled_or_conditioned_pairs_are_kept() {
    let c = circuit(2, vec![gate("X", Some(1), Some(0)), gate("X", Some(1), None)]);
    let o = optimize_circuit(&c).unwrap();
    assert_eq!(o.gates.len(), 2);
    let mut h = gate("H", Some(0), None);
    h.condition = Some(quantum_engine::circuit::ClassicalCondition { register: 0, value: true });
    let c = circuit(1, vec![h, gate("H", Some(0), None)]);
    assert_eq!(remove_self_inverses(&c).unwrap().gates.len(), 2);
    let mut r = gate("X", Some(0), None);
    r.repeat = Some(2);
    let c = circuit(1, vec![gate("X", Some(0), None), r]);
    assert_eq!(remove_self_inverses(&c).unwrap().gates.len(), 2);
}
