//! Gates whose action on the state vector moves amplitudes without arithmetic,
//! and the checks every gate makes on its qubits.
use vstd::prelude::*;
use crate::error::{Error, Fault, fault_of, message_of, outcome};
use crate::state::{QuantumState, bit, dim, selected, lemma_pair_bits, lemma_partner_bits};
use crate::text::{join, lemma_joined_small};

verus! {

/// The error for a gate whose qubits clash.
fn parameter_error(m: &str) -> (e: Error)
    ensures
        fault_of(e) == Fault::GateParameters,
        message_of(e) == m@,
{
    proof {
        lemma_joined_small(m, "", "");
    }
    let parts = [m];
    assert(parts@ =~= seq![m]);
    Error::InvalidGateParameters { reason: join(&parts) }
}

/// Checks that `qubit` names one of the `num_qubits` qubits.
pub fn validate_qubit(qubit: usize, num_qubits: usize) -> (r: Result<(), Error>)
    ensures
        r is Ok <==> qubit < num_qubits,
        r matches Err(e) ==> fault_of(e) == (Fault::QubitIndex { index: qubit, max: num_qubits }),
        r matches Err(e) ==> message_of(e) == Seq::<char>::empty(),
{
    if qubit >= num_qubits {
        return Err(Error::InvalidQubitIndex { index: qubit, max: num_qubits });
    }
    Ok(())
}

/// Facts about a single-qubit mask used as a control.
pub proof fn lemma_single_control(c: usize, target: usize, n: usize)
    by (bit_vector)
    requires
        c < n,
        target < n,
        c != target,
        n <= 30,
    ensures
        (1usize << c) & (1usize << target) == 0,
        (1usize << c) < (1usize << n),
{
}

/// Facts about a control bit under flipping of the target bit.
pub proof fn lemma_control_bit(i: usize, c: usize, target: usize)
    by (bit_vector)
    requires
        c < 30,
        target < 30,
        c != target,
    ensures
        (i & (1usize << c)) == (1usize << c) <==> (i & (1usize << c)) != 0,
        ((i ^ (1usize << target)) & (1usize << c)) == (i & (1usize << c)),
        (i & 0) == 0,
{
}

/// The amplitudes after an X gate on `target`: basis states swap with their
/// partner across the target bit.
pub open spec fn x_image<A>(s: Seq<A>, target: usize) -> Seq<A> {
    Seq::new(s.len(), |i: int| s[((i as usize) ^ bit(target)) as int])
}

/// The amplitudes after a CNOT: as X on `target`, but only where the control bit is set.
pub open spec fn cnot_image<A>(s: Seq<A>, control: usize, target: usize) -> Seq<A> {
    Seq::new(
        s.len(),
        |i: int|
            if (i as usize) & bit(control) != 0 {
                s[((i as usize) ^ bit(target)) as int]
            } else {
                s[i]
            },
    )
}

/// The index with bits `q1` and `q2` exchanged.
pub open spec fn swap_index(i: usize, q1: usize, q2: usize) -> usize {
    if ((i & bit(q1)) != 0) != ((i & bit(q2)) != 0) {
        i ^ bit(q1) ^ bit(q2)
    } else {
        i
    }
}

/// The amplitudes after a SWAP of qubits `q1` and `q2`.
pub open spec fn swap_image<A>(s: Seq<A>, q1: usize, q2: usize) -> Seq<A> {
    Seq::new(s.len(), |i: int| s[swap_index(i as usize, q1, q2) as int])
}

/// Exchanges the two amplitudes of a pair.
fn exchange<A: Copy>(a: A, b: A) -> (r: (A, A))
    ensures
        r == (b, a),
{
    (b, a)
}

/// Pauli X gate: |0> -> |1>, |1> -> |0>.
pub fn gate_x<A: Copy>(state: &mut QuantumState<A>, target: usize) -> (r: Result<(), Error>)
    requires
        old(state).wf(),
    ensures
        final(state).wf(),
        final(state).qubit_count() == old(state).qubit_count(),
        r is Ok <==> target < old(state).qubit_count(),
        r matches Err(e) ==> fault_of(e) == (Fault::QubitIndex {
            index: target,
            max: old(state).qubit_count(),
        }) && final(state)@ == old(state)@,
        r is Ok ==> final(state)@ == x_image(old(state)@, target),
{
    validate_qubit(target, state.num_qubits())?;
    let ghost n = state.qubit_count();
    let ghost before = state@;
    proof {
        state.lemma_wf();
        assert(0usize & bit(target) == 0) by (bit_vector);
    }
    state.apply_to_pairs(0, target, &exchange);
    proof {
        state.lemma_wf();
        assert forall|i: int| 0 <= i < before.len() implies #[trigger] state@[i] == x_image(
            before,
            target,
        )[i] by {
            let iu = i as usize;
            lemma_partner_bits(iu, 0, target, n);
            assert(iu & 0 == 0) by (bit_vector);
            if iu & bit(target) == 0 {
                assert(selected(iu, 0, target));
                lemma_pair_bits(iu, 0, target, n);
            } else {
                let k = iu ^ bit(target);
                assert(k & 0 == 0) by (bit_vector);
                assert(selected(k, 0, target));
            }
        }
        assert(state@ =~= x_image(before, target));
    }
    Ok(())
}

/// CNOT (Controlled-NOT): flips target if control is |1>.
pub fn gate_cnot<A: Copy>(state: &mut QuantumState<A>, control: usize, target: usize) -> (r: Result<
    (),
    Error,
>)
    requires
        old(state).wf(),
    ensures
        final(state).wf(),
        final(state).qubit_count() == old(state).qubit_count(),
        outcome(r) == (if control >= old(state).qubit_count() {
            Some(Fault::QubitIndex { index: control, max: old(state).qubit_count() })
        } else if target >= old(state).qubit_count() {
            Some(Fault::QubitIndex { index: target, max: old(state).qubit_count() })
        } else if control == target {
            Some(Fault::GateParameters)
        } else {
            None
        }),
        r is Err ==> final(state)@ == old(state)@,
        r is Ok ==> final(state)@ == cnot_image(old(state)@, control, target),
        r matches Err(e) ==> message_of(e) == (if fault_of(e) == Fault::GateParameters {
            "Control and target must be different qubits"@
        } else {
            Seq::empty()
        }),
{
    validate_qubit(control, state.num_qubits())?;
    validate_qubit(target, state.num_qubits())?;
    if control == target {
        return Err(
            parameter_error("Control and target must be different qubits"),
        );
    }
    let ghost n = state.qubit_count();
    let ghost before = state@;
    proof {
        state.lemma_wf();
        lemma_single_control(control, target, n);
    }
    let control_mask: usize = 1usize << control;
    state.apply_to_pairs(control_mask, target, &exchange);
    proof {
        state.lemma_wf();
        assert forall|i: int| 0 <= i < before.len() implies #[trigger] state@[i] == cnot_image(
            before,
            control,
            target,
        )[i] by {
            let iu = i as usize;
            lemma_partner_bits(iu, control_mask, target, n);
            lemma_control_bit(iu, control, target);
            if iu & bit(control) != 0 {
                if iu & bit(target) == 0 {
                    assert(selected(iu, control_mask, target));
                    lemma_pair_bits(iu, control_mask, target, n);
                } else {
                    let k = iu ^ bit(target);
                    lemma_control_bit(k, control, target);
                    assert(selected(k, control_mask, target));
                }
            }
        }
        assert(state@ =~= cnot_image(before, control, target));
    }
    Ok(())
}

/// Index facts for exchanging bits `q1` and `q2`.
pub proof fn lemma_swap_bits(k: usize, q1: usize, q2: usize, n: usize)
    by (bit_vector)
    requires
        q1 < n,
        q2 < n,
        q1 != q2,
        n <= 30,
        k < (1usize << n),
    ensures
        (k ^ (1usize << q1) ^ (1usize << q2)) < (1usize << n),
        (k ^ (1usize << q1) ^ (1usize << q2)) ^ (1usize << q1) ^ (1usize << q2) == k,
        ((k & (1usize << q1)) != 0) != ((k & (1usize << q2)) != 0) ==> (((k ^ (1usize << q1) ^ (
        1usize << q2)) & (1usize << q1)) != 0) != (((k ^ (1usize << q1) ^ (1usize << q2)) & (1usize
            << q2)) != 0),
        ((k & (1usize << q1)) != 0) != ((k & (1usize << q2)) != 0) ==> (k ^ (1usize << q1) ^ (
        1usize << q2)) != k,
{
}

/// Whether index `k` differs in bits `q1` and `q2`.
pub open spec fn bits_differ(k: usize, q1: usize, q2: usize) -> bool {
    ((k & bit(q1)) != 0) != ((k & bit(q2)) != 0)
}

/// SWAP gate: exchanges two qubits.
pub fn gate_swap<A: Copy>(state: &mut QuantumState<A>, qubit1: usize, qubit2: usize) -> (r: Result<
    (),
    Error,
>)
    requires
        old(state).wf(),
    ensures
        final(state).wf(),
        final(state).qubit_count() == old(state).qubit_count(),
        outcome(r) == (if qubit1 >= old(state).qubit_count() {
            Some(Fault::QubitIndex { index: qubit1, max: old(state).qubit_count() })
        } else if qubit2 >= old(state).qubit_count() {
            Some(Fault::QubitIndex { index: qubit2, max: old(state).qubit_count() })
        } else if qubit1 == qubit2 {
            Some(Fault::GateParameters)
        } else {
            None
        }),
        r is Err ==> final(state)@ == old(state)@,
        r is Ok ==> final(state)@ == swap_image(old(state)@, qubit1, qubit2),
        r matches Err(e) ==> message_of(e) == (if fault_of(e) == Fault::GateParameters {
            "Swap qubits must be different"@
        } else {
            Seq::empty()
        }),
{
    validate_qubit(qubit1, state.num_qubits())?;
    validate_qubit(qubit2, state.num_qubits())?;
    if qubit1 == qubit2 {
        return Err(
            parameter_error("Swap qubits must be different"),
        );
    }
    let ghost n = state.qubit_count();
    let ghost before = state@;
    proof {
        state.lemma_wf();
    }
    let mask1: usize = 1usize << qubit1;
    let mask2: usize = 1usize << qubit2;
    let size = state.size();
    let mut amps = state.amplitudes_copy();
    let mut i: usize = 0;
    while i < size
        invariant
            1 <= n <= 30,
            qubit1 < n,
            qubit2 < n,
            qubit1 != qubit2,
            mask1 == bit(qubit1),
            mask2 == bit(qubit2),
            size == dim(n),
            before.len() == size,
            amps@.len() == size,
            i <= size,
            forall|k: usize|
                k < size ==> #[trigger] amps@[k as int] == if bits_differ(k, qubit1, qubit2) && (k
                    < i || swap_index(k, qubit1, qubit2) < i) {
                    before[swap_index(k, qubit1, qubit2) as int]
                } else {
                    before[k as int]
                },
        decreases size - i,
    {
        if ((i & mask1) != 0) != ((i & mask2) != 0) {
            let j = i ^ mask1 ^ mask2;
            proof {
                lemma_swap_bits(i, qubit1, qubit2, n);
            }
            if i < j {
                let a = amps[i];
                let b = amps[j];
                amps.set(i, b);
                amps.set(j, a);
            }
        }
        proof {
            lemma_swap_bits(i, qubit1, qubit2, n);
            assert forall|k: usize| k < size implies #[trigger] amps@[k as int] == if bits_differ(
                k,
                qubit1,
                qubit2,
            ) && (k < i + 1 || swap_index(k, qubit1, qubit2) < i + 1) {
                before[swap_index(k, qubit1, qubit2) as int]
            } else {
                before[k as int]
            } by {
                lemma_swap_bits(k, qubit1, qubit2, n);
            }
        }
        i = i + 1;
    }
    state.set_amplitudes(amps);
    proof {
        state.lemma_wf();
        assert forall|k: int| 0 <= k < before.len() implies #[trigger] state@[k] == swap_image(
            before,
            qubit1,
            qubit2,
        )[k] by {
            lemma_swap_bits(k as usize, qubit1, qubit2, n);
        }
        assert(state@ =~= swap_image(before, qubit1, qubit2));
    }
    Ok(())
}

/// The amplitudes after a Toffoli gate: as X on `target`, but only where both
/// control bits are set.
pub open spec fn ccx_image<A>(s: Seq<A>, control1: usize, control2: usize, target: usize) -> Seq<A> {
    Seq::new(
        s.len(),
        |i: int|
            if (i as usize) & bit(control1) != 0 && (i as usize) & bit(control2) != 0 {
                s[((i as usize) ^ bit(target)) as int]
            } else {
                s[i]
            },
    )
}

/// Facts about the mask of two controls.
proof fn lemma_two_controls(i: usize, c1: usize, c2: usize, target: usize, n: usize)
    by (bit_vector)
    requires
        c1 < n,
        c2 < n,
        target < n,
        c1 != target,
        c2 != target,
        n <= 30,
    ensures
        ((1usize << c1) | (1usize << c2)) & (1usize << target) == 0,
        ((1usize << c1) | (1usize << c2)) < (1usize << n),
        (i & ((1usize << c1) | (1usize << c2)) == ((1usize << c1) | (1usize << c2))) <==> (i & (
        1usize << c1) != 0 && i & (1usize << c2) != 0),
        ((i ^ (1usize << target)) & (1usize << c1)) == (i & (1usize << c1)),
        ((i ^ (1usize << target)) & (1usize << c2)) == (i & (1usize << c2)),
{
}

/// Toffoli (CCX) gate: flips `target` where both controls are |1>.
pub fn gate_ccx<A: Copy>(
    state: &mut QuantumState<A>,
    control1: usize,
    control2: usize,
    target: usize,
) -> (r: Result<(), Error>)
    requires
        old(state).wf(),
    ensures
        final(state).wf(),
        final(state).qubit_count() == old(state).qubit_count(),
        outcome(r) == (if target >= old(state).qubit_count() {
            Some(Fault::QubitIndex { index: target, max: old(state).qubit_count() })
        } else if control1 >= old(state).qubit_count() {
            Some(Fault::QubitIndex { index: control1, max: old(state).qubit_count() })
        } else if control1 == target {
            Some(Fault::GateParameters)
        } else if control2 >= old(state).qubit_count() {
            Some(Fault::QubitIndex { index: control2, max: old(state).qubit_count() })
        } else if control2 == target {
            Some(Fault::GateParameters)
        } else {
            None
        }),
        r is Err ==> final(state)@ == old(state)@,
        r is Ok ==> final(state)@ == ccx_image(old(state)@, control1, control2, target),
        r matches Err(e) ==> message_of(e) == (if fault_of(e) == Fault::GateParameters {
            "Control and target must be different qubits"@
        } else {
            Seq::empty()
        }),
{
    validate_qubit(target, state.num_qubits())?;
    validate_qubit(control1, state.num_qubits())?;
    if control1 == target {
        return Err(
            parameter_error("Control and target must be different qubits"),
        );
    }
    validate_qubit(control2, state.num_qubits())?;
    if control2 == target {
        return Err(
            parameter_error("Control and target must be different qubits"),
        );
    }
    let ghost n = state.qubit_count();
    let ghost before = state@;
    proof {
        state.lemma_wf();
        lemma_two_controls(0, control1, control2, target, n);
    }
    let control_mask: usize = (1usize << control1) | (1usize << control2);
    state.apply_to_pairs(control_mask, target, &exchange);
    proof {
        state.lemma_wf();
        assert forall|i: int| 0 <= i < before.len() implies #[trigger] state@[i] == ccx_image(
            before,
            control1,
            control2,
            target,
        )[i] by {
            let iu = i as usize;
            lemma_partner_bits(iu, control_mask, target, n);
            lemma_two_controls(iu, control1, control2, target, n);
            if iu & bit(control1) != 0 && iu & bit(control2) != 0 {
                if iu & bit(target) == 0 {
                    assert(selected(iu, control_mask, target));
                    lemma_pair_bits(iu, control_mask, target, n);
                } else {
                    let k = iu ^ bit(target);
                    lemma_two_controls(k, control1, control2, target, n);
                    assert(selected(k, control_mask, target));
                }
            }
        }
        assert(state@ =~= ccx_image(before, control1, control2, target));
    }
    Ok(())
}

/// The first control that is out of range or equals the target.
pub open spec fn control_fault(cs: Seq<usize>, target: usize, n: usize) -> Option<Fault>
    decreases cs.len(),
{
    if cs.len() == 0 {
        None
    } else if cs[0] >= n {
        Some(Fault::QubitIndex { index: cs[0], max: n })
    } else if cs[0] == target {
        Some(Fault::GateParameters)
    } else {
        control_fault(cs.drop_first(), target, n)
    }
}

/// The mask with the bits of all `cs` set.
pub open spec fn mask_of(cs: Seq<usize>) -> usize
    decreases cs.len(),
{
    if cs.len() == 0 {
        0
    } else {
        mask_of(cs.drop_last()) | bit(cs.last())
    }
}

proof fn lemma_mask_step(m: usize, c: usize, target: usize, n: usize)
    by (bit_vector)
    requires
        m < (1usize << n),
        m & (1usize << target) == 0,
        c < n,
        target < n,
        c != target,
        n <= 30,
    ensures
        (m | (1usize << c)) < (1usize << n),
        (m | (1usize << c)) & (1usize << target) == 0,
{
}

/// Checks the controls of a gate against its target and the qubit count, and
/// returns the mask of control bits.
pub fn controls_mask(controls: &[usize], target: usize, num_qubits: usize) -> (r: Result<usize, Error>)
    requires
        target < num_qubits <= 30,
    ensures
        outcome(r) == control_fault(controls@, target, num_qubits),
        r matches Ok(m) ==> m == mask_of(controls@) && m < dim(num_qubits) && m & bit(target) == 0,
        r matches Err(e) ==> message_of(e) == (if fault_of(e) == Fault::GateParameters {
            "Control and target must be different qubits"@
        } else {
            Seq::empty()
        }),
{
    let ghost cs = controls@;
    let mut control_mask: usize = 0;
    let mut i: usize = 0;
    proof {
        assert(cs.take(0) =~= Seq::<usize>::empty());
        assert(cs.skip(0) =~= cs);
        assert(0usize < (1usize << num_qubits)) by (bit_vector)
            requires
                num_qubits <= 30,
        ;
        assert(0usize & (1usize << target) == 0) by (bit_vector);
    }
    while i < controls.len()
        invariant
            cs == controls@,
            target < num_qubits <= 30,
            i <= cs.len(),
            control_fault(cs, target, num_qubits) == control_fault(
                cs.skip(i as int),
                target,
                num_qubits,
            ),
            control_mask == mask_of(cs.take(i as int)),
            control_mask < dim(num_qubits),
            control_mask & bit(target) == 0,
        decreases cs.len() - i,
    {
        let control = controls[i];
        proof {
            assert(cs.skip(i as int)[0] == control);
            assert(cs.skip(i as int).drop_first() =~= cs.skip(i as int + 1));
        }
        validate_qubit(control, num_qubits)?;
        if control == target {
            return Err(
                parameter_error("Control and target must be different qubits"),
            );
        }
        proof {
            lemma_mask_step(control_mask, control, target, num_qubits);
            assert(cs.take(i as int + 1).drop_last() =~= cs.take(i as int));
        }
        control_mask = control_mask | (1usize << control);
        i = i + 1;
    }
    proof {
        assert(cs.take(cs.len() as int) =~= cs);
    }
    Ok(control_mask)
}

/// Apply a pair update `f` on `target` with optional controls: every pair
/// `(i, i | bit(target))` with all control bits set is replaced by `f` of it.
/// With no controls this is an unconditional single-qubit operation.
pub fn apply_controlled_pairs<A: Copy, F: Fn(A, A) -> (A, A)>(
    state: &mut QuantumState<A>,
    controls: &[usize],
    target: usize,
    f: &F,
) -> (r: Result<(), Error>)
    requires
        old(state).wf(),
        forall|a: A, b: A| f.requires((a, b)),
    ensures
        final(state).wf(),
        final(state).qubit_count() == old(state).qubit_count(),
        outcome(r) == (if target >= old(state).qubit_count() {
            Some(Fault::QubitIndex { index: target, max: old(state).qubit_count() })
        } else {
            control_fault(controls@, target, old(state).qubit_count())
        }),
        r is Err ==> final(state)@ == old(state)@,
        r is Ok ==> forall|i: usize|
            i < old(state)@.len() && #[trigger] selected(i, mask_of(controls@), target)
                ==> f.ensures(
                (old(state)@[i as int], old(state)@[(i | bit(target)) as int]),
                (final(state)@[i as int], final(state)@[(i | bit(target)) as int]),
            ),
        r is Ok ==> forall|i: usize|
            i < old(state)@.len() && #[trigger] (i & mask_of(controls@)) != mask_of(controls@)
                ==> final(state)@[i as int] == old(state)@[i as int],
        r matches Err(e) ==> message_of(e) == (if fault_of(e) == Fault::GateParameters {
            "Control and target must be different qubits"@
        } else {
            Seq::empty()
        }),
{
    validate_qubit(target, state.num_qubits())?;
    proof {
        state.lemma_wf();
    }
    let control_mask = controls_mask(controls, target, state.num_qubits())?;
    state.apply_to_pairs(control_mask, target, f);
    Ok(())
}

// ---------------------------------------------------------------------------
// Laws

/// Applying X twice to the same qubit restores the amplitudes.
pub proof fn lemma_x_twice<A>(s: Seq<A>, target: usize, n: usize)
    requires
        1 <= n <= 30,
        target < n,
        s.len() == dim(n),
    ensures
        x_image(x_image(s, target), target) == s,
{
    assert forall|i: int| 0 <= i < s.len() implies #[trigger] x_image(x_image(s, target), target)[i]
        == s[i] by {
        assert(0usize & (1usize << target) == 0) by (bit_vector);
        lemma_partner_bits(i as usize, 0, target, n);
    }
    assert(x_image(x_image(s, target), target) =~= s);
}

/// Applying CNOT twice with the same control and target restores the amplitudes.
pub proof fn lemma_cnot_twice<A>(s: Seq<A>, control: usize, target: usize, n: usize)
    requires
        1 <= n <= 30,
        control < n,
        target < n,
        control != target,
        s.len() == dim(n),
    ensures
        cnot_image(cnot_image(s, control, target), control, target) == s,
{
    assert forall|i: int| 0 <= i < s.len() implies #[trigger] cnot_image(
        cnot_image(s, control, target),
        control,
        target,
    )[i] == s[i] by {
        assert(0usize & (1usize << target) == 0) by (bit_vector);
        lemma_partner_bits(i as usize, 0, target, n);
        lemma_control_bit(i as usize, control, target);
    }
    assert(cnot_image(cnot_image(s, control, target), control, target) =~= s);
}

/// Applying a Toffoli gate twice with the same qubits restores the amplitudes.
pub proof fn lemma_ccx_twice<A>(s: Seq<A>, control1: usize, control2: usize, target: usize, n: usize)
    requires
        1 <= n <= 30,
        control1 < n,
        control2 < n,
        target < n,
        control1 != target,
        control2 != target,
        s.len() == dim(n),
    ensures
        ccx_image(ccx_image(s, control1, control2, target), control1, control2, target) == s,
{
    let once = ccx_image(s, control1, control2, target);
    assert forall|i: int| 0 <= i < s.len() implies #[trigger] ccx_image(
        once,
        control1,
        control2,
        target,
    )[i] == s[i] by {
        assert(0usize & (1usize << target) == 0) by (bit_vector);
        lemma_partner_bits(i as usize, 0, target, n);
        lemma_two_controls(i as usize, control1, control2, target, n);
    }
    assert(ccx_image(once, control1, control2, target) =~= s);
}

/// Applying SWAP twice to the same pair of qubits restores the amplitudes.
pub proof fn lemma_swap_twice<A>(s: Seq<A>, q1: usize, q2: usize, n: usize)
    requires
        1 <= n <= 30,
        q1 < n,
        q2 < n,
        q1 != q2,
        s.len() == dim(n),
    ensures
        swap_image(swap_image(s, q1, q2), q1, q2) == s,
{
    assert forall|i: int| 0 <= i < s.len() implies #[trigger] swap_image(swap_image(s, q1, q2), q1, q2)[i]
        == s[i] by {
        lemma_swap_bits(i as usize, q1, q2, n);
    }
    assert(swap_image(swap_image(s, q1, q2), q1, q2) =~= s);
}

} // verus!
