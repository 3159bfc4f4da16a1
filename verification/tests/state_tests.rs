use num_complex::Complex64;
use quantum_engine::error::Error;
use quantum_engine::gates::{
    apply_controlled_pairs, controls_mask, gate_ccx, gate_cnot, gate_swap, gate_x, validate_qubit,
};
use quantum_engine::state::QuantumState;

fn zero() -> Complex64 {
    Complex64::new(0.0, 0.0)
}

fn one() -> Complex64 {
    Complex64::new(1.0, 0.0)
}

fn new_state(n: usize) -> QuantumState<Complex64> {
    QuantumState::new(n, zero(), one()).unwrap()
}

fn probability(state: &QuantumState<Complex64>, i: usize) -> f64 {
    state.get_amplitude(i).unwrap().norm_sqr()
}

fn hadamard(a: Complex64, b: Complex64) -> (Complex64, Complex64) {
    let s = std::f64::consts::FRAC_1_SQRT_2;
    ((a + b) * s, (a - b) * s)
}

fn gate_h(state: &mut QuantumState<Complex64>, target: usize) {
    apply_controlled_pairs(state, &[], target, &hadamard).unwrap();
}

#[test]
fn test_state_initialization() {
    let state = new_state(2);
    assert_eq!(state.num_qubits(), 2);
    assert_eq!(state.size(), 4);
    assert_eq!(state.get_amplitude(0).unwrap().re, 1.0);
}

#[test]
fn test_collapse() {
    let mut state = new_state(2);
    state.collapse_to(3, zero(), one()).unwrap();
    assert_eq!(state.get_amplitude(3).unwrap().re, 1.0);
}

#[test]
fn test_invalid_qubit_count() {
    assert!(QuantumState::new(0, zero(), one()).is_err());
    assert!(QuantumState::new(31, zero(), one()).is_err());
}

#[test]
fn test_pauli_x() {
    let mut state = new_state(1);
    gate_x(&mut state, 0).unwrap();
    assert!(state.get_amplitude(1).unwrap().re.abs() - 1.0 < 1e-10);
}

#[test]
fn test_hadamard_double() {
    let mut state = new_state(1);
    gate_h(&mut state, 0);
    gate_h(&mut state, 0);
    assert!(state.get_amplitude(0).unwrap().re.abs() - 1.0 < 1e-10);
}

#[test]
fn test_cnot() {
    let mut state = new_state(2);
    gate_h(&mut state, 0);
    gate_cnot(&mut state, 0, 1).unwrap();
    let p00 = probability(&state, 0);
    let p11 = probability(&state, 3);
    assert!((p00 - 0.5).abs() < 1e-10);
    assert!((p11 - 0.5).abs() < 1e-10);
}

#[test]
fn test_cz_phase_flip() {
    let mut state = new_state(2);
    gate_x(&mut state, 0).unwrap();
    gate_x(&mut state, 1).unwrap();
    let before = state.get_amplitude(3).unwrap();
    apply_controlled_pairs(&mut state, &[0], 1, &|a: Complex64, b: Complex64| (a, -b)).unwrap();
    let after = state.get_amplitude(3).unwrap();
    assert!((after + before).norm() < 1e-10);
}

#[test]
fn test_ccx() {
    let mut state = new_state(3);
    gate_x(&mut state, 0).unwrap();
    gate_x(&mut state, 1).unwrap();
    gate_ccx(&mut state, 0, 1, 2).unwrap();
    assert!(probability(&state, 7) > 0.99);
}

// ---------------------------------------------------------------------------

#[test]
fn new_state_has_all_weight_on_zero() {
    let state = new_state(3);
    assert_eq!(state.size(), 8);
    assert_eq!(state.get_amplitude(0).unwrap(), one());
    for i in 1..8 {
        assert_eq!(state.get_amplitude(i).unwrap(), zero());
    }
    assert!(QuantumState::new(30, 0u8, 1u8).is_ok());
}

#[test]
fn new_state_errors_are_validation_errors() {
    assert!(matches!(QuantumState::new(0, zero(), one()), Err(Error::CircuitValidationError { .. })));
    assert!(matches!(QuantumState::new(31, zero(), one()), Err(Error::CircuitValidationError { .. })));
}

#[test]
fn get_amplitude_out_of_range() {
    let state = new_state(2);
    assert!(matches!(state.get_amplitude(4), Err(Error::IndexOutOfBounds(_))));
}

#[test]
fn collapse_out_of_range_is_rejected() {
    let mut state = new_state(2);
    assert!(state.collapse_to(4, zero(), one()).is_err());
    assert_eq!(state.get_amplitude(0).unwrap(), one());
}

#[test]
fn collapse_then_reset() {
    let mut state = new_state(2);
    state.collapse_to(2, zero(), one()).unwrap();
    assert_eq!(state.get_amplitude(2).unwrap(), one());
    assert_eq!(state.get_amplitude(0).unwrap(), zero());
    state.reset(zero(), one());
    assert_eq!(state.get_amplitude(0).unwrap(), one());
    assert_eq!(state.get_amplitude(2).unwrap(), zero());
}

#[test]
fn x_on_second_qubit_moves_amplitude() {
    let mut state = new_state(2);
    gate_x(&mut state, 1).unwrap();
    assert_eq!(state.get_amplitude(2).unwrap(), one());
    assert_eq!(state.get_amplitude(0).unwrap(), zero());
}

#[test]
fn x_twice_is_identity() {
    let mut state: QuantumState<u32> = QuantumState::new(2, 0, 1).unwrap();
    state.set_amplitudes(vec![10, 20, 30, 40]);
    gate_x(&mut state, 1).unwrap();
    assert_eq!(state.amplitudes_copy(), vec![30, 40, 10, 20]);
    gate_x(&mut state, 1).unwrap();
    assert_eq!(state.amplitudes_copy(), vec![10, 20, 30, 40]);
}

#[test]
fn x_rejects_bad_target() {
    let mut state = new_state(2);
    assert!(matches!(gate_x(&mut state, 2), Err(Error::InvalidQubitIndex { index: 2, max: 2 })));
}

#[test]
fn cnot_permutes_basis_states() {
    let mut state: QuantumState<u32> = QuantumState::new(2, 0, 1).unwrap();
    state.set_amplitudes(vec![10, 20, 30, 40]);
    gate_cnot(&mut state, 0, 1).unwrap();
    // indices with bit 0 set (1 and 3) have bit 1 flipped
    assert_eq!(state.amplitudes_copy(), vec![10, 40, 30, 20]);
    gate_cnot(&mut state, 0, 1).unwrap();
    assert_eq!(state.amplitudes_copy(), vec![10, 20, 30, 40]);
}

#[test]
fn cnot_errors() {
    let mut state = new_state(2);
    assert!(matches!(gate_cnot(&mut state, 0, 0), Err(Error::InvalidGateParameters { .. })));
    assert!(matches!(gate_cnot(&mut state, 2, 0), Err(Error::InvalidQubitIndex { index: 2, max: 2 })));
    assert!(matches!(gate_cnot(&mut state, 0, 3), Err(Error::InvalidQubitIndex { index: 3, max: 2 })));
}

#[test]
fn swap_exchanges_qubits() {
    let mut state: QuantumState<u32> = QuantumState::new(2, 0, 1).unwrap();
    state.set_amplitudes(vec![10, 20, 30, 40]);
    gate_swap(&mut state, 0, 1).unwrap();
    assert_eq!(state.amplitudes_copy(), vec![10, 30, 20, 40]);
    gate_swap(&mut state, 1, 0).unwrap();
    assert_eq!(state.amplitudes_copy(), vec![10, 20, 30, 40]);
    assert!(gate_swap(&mut state, 0, 0).is_err());
    assert!(gate_swap(&mut state, 0, 5).is_err());
}

#[test]
fn validate_qubit_bounds() {
    assert!(validate_qubit(0, 1).is_ok());
    assert!(matches!(validate_qubit(1, 1), Err(Error::InvalidQubitIndex { index: 1, max: 1 })));
}

#[test]
fn controls_mask_values_and_errors() {
    assert_eq!(controls_mask(&[0, 2], 1, 3).unwrap(), 0b101);
    assert_eq!(controls_mask(&[], 1, 3).unwrap(), 0);
    assert!(controls_mask(&[1], 1, 3).is_err());
    assert_eq!(controls_mask(&[0, 0], 1, 3).unwrap(), 1);
    assert!(matches!(controls_mask(&[4], 1, 3), Err(Error::InvalidQubitIndex { index: 4, max: 3 })));
}

#[test]
fn controlled_pairs_only_touch_selected_pairs() {
    let mut state: QuantumState<u32> = QuantumState::new(3, 0, 1).unwrap();
    state.set_amplitudes(vec![0, 1, 2, 3, 4, 5, 6, 7]);
    // swap on qubit 2 where qubit 0 is set: pairs (1,5) and (3,7)
    apply_controlled_pairs(&mut state, &[0], 2, &|a: u32, b: u32| (b, a)).unwrap();
    assert_eq!(state.amplitudes_copy(), vec![0, 5, 2, 7, 4, 1, 6, 3]);
}

#[test]
fn map_amplitudes_applies_everywhere() {
    let mut state: QuantumState<u32> = QuantumState::new(1, 0, 1).unwrap();
    state.set_amplitudes(vec![3, 4]);
    state.map_amplitudes(&|a: u32| a.wrapping_mul(2));
    assert_eq!(state.amplitudes_copy(), vec![6, 8]);
}

#[test]
fn project_qubit_clears_other_branch() {
    let mut state: QuantumState<u32> = QuantumState::new(2, 0, 1).unwrap();
    state.set_amplitudes(vec![1, 2, 3, 4]);
    state.project_qubit(0, true, 0);
    assert_eq!(state.amplitudes_copy(), vec![0, 2, 0, 4]);
    state.set_amplitudes(vec![1, 2, 3, 4]);
    state.project_qubit(1, false, 0);
    assert_eq!(state.amplitudes_copy(), vec![1, 2, 0, 0]);
}

#[test]
fn ccx_permutes_and_checks() {
    let mut state: QuantumState<u32> = QuantumState::new(3, 0, 1).unwrap();
    state.set_amplitudes(vec![0, 1, 2, 3, 4, 5, 6, 7]);
    gate_ccx(&mut state, 0, 1, 2).unwrap();
    assert_eq!(state.amplitudes_copy(), vec![0, 1, 2, 7, 4, 5, 6, 3]);
    gate_ccx(&mut state, 1, 0, 2).unwrap();
    assert_eq!(state.amplitudes_copy(), vec![0, 1, 2, 3, 4, 5, 6, 7]);
    assert!(matches!(gate_ccx(&mut state, 0, 1, 3), Err(Error::InvalidQubitIndex { index: 3, max: 3 })));
    assert!(matches!(gate_ccx(&mut state, 2, 1, 2), Err(Error::InvalidGateParameters { .. })));
    assert!(matches!(gate_ccx(&mut state, 0, 5, 2), Err(Error::InvalidQubitIndex { index: 5, max: 3 })));
    assert_eq!(state.amplitudes_copy(), vec![0, 1, 2, 3, 4, 5, 6, 7]);
}

#[test]
fn error_messages() {
    let mut state = new_state(2);
    match state.get_amplitude(7) {
        Err(Error::IndexOutOfBounds(m)) => assert_eq!(m, "Index 7 out of bounds"),
        other => panic!("unexpected {:?}", other),
    }
    match state.collapse_to(12, zero(), one()) {
        Err(Error::IndexOutOfBounds(m)) => assert_eq!(m, "State index 12 out of bounds"),
        other => panic!("unexpected {:?}", other),
    }
    match gate_cnot(&mut state, 1, 1) {
        Err(Error::InvalidGateParameters { reason }) => {
            assert_eq!(reason, "Control and target must be different qubits")
        }
        other => panic!("unexpected {:?}", other),
    }
    match gate_swap(&mut state, 0, 0) {
        Err(Error::InvalidGateParameters { reason }) => assert_eq!(reason, "Swap qubits must be different"),
        other => panic!("unexpected {:?}", other),
    }
    match QuantumState::new(31, zero(), one()) {
        Err(Error::CircuitValidationError { reason }) => {
            assert_eq!(reason, "Number of qubits cannot exceed 30 (2^30 states)")
        }
        other => panic!("unexpected {:?}", other),
    }
}
