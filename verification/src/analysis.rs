//! Index bookkeeping for observables on a subsystem of qubits.
use vstd::prelude::*;
use crate::circuit::first_of;
use crate::error::{Error, Fault, fault_of, message_of, outcome};
use crate::gates::mask_of;
use crate::measurement::index_bit;
use crate::state::{QuantumState, bit, dim};
use crate::text::{join, decimal, decimal_text, char_text, lemma_joined_small};
use vstd::string::StringSliceAdditionalSpecFns;

verus! {

/// The first problem with a list of subsystem qubits on an `n`-qubit state:
/// an index out of range, or one listed twice.
pub open spec fn subsystem_fault(ks: Seq<usize>, n: usize) -> Option<Fault>
    decreases ks.len(),
{
    if ks.len() == 0 {
        None
    } else {
        first_of(
            subsystem_fault(ks.drop_last(), n),
            if ks.last() >= n {
                Some(Fault::QubitIndex { index: ks.last(), max: n })
            } else if ks.drop_last().contains(ks.last()) {
                Some(Fault::Measurement)
            } else {
                None
            },
        )
    }
}

/// Message of `subsystem_fault`; empty where the fault is a qubit index.
pub open spec fn subsystem_message(ks: Seq<usize>, n: usize) -> Seq<char>
    decreases ks.len(),
{
    if ks.len() == 0 {
        Seq::empty()
    } else if subsystem_fault(ks.drop_last(), n) is Some {
        subsystem_message(ks.drop_last(), n)
    } else if ks.last() >= n {
        Seq::empty()
    } else {
        "Subsystem contains duplicate qubit "@ + decimal(ks.last())
    }
}

/// Checks a list of subsystem qubits: non-empty, each a qubit of the state, none repeated.
pub fn validate_subsystem<A: Copy>(state: &QuantumState<A>, keep_qubits: &[usize]) -> (r: Result<
    (),
    Error,
>)
    ensures
        outcome(r) == if keep_qubits@.len() == 0 {
            Some(Fault::Measurement)
        } else {
            subsystem_fault(keep_qubits@, state.qubit_count())
        },
        r matches Err(e) ==> message_of(e) == if keep_qubits@.len() == 0 {
            "Subsystem must include at least one qubit"@
        } else {
            subsystem_message(keep_qubits@, state.qubit_count())
        },
{
    let ks = keep_qubits;
    if ks.len() == 0 {
        let parts = ["Subsystem must include at least one qubit"];
        proof {
            lemma_joined_small(parts[0], "", "");
        }
        assert(parts@ =~= seq!["Subsystem must include at least one qubit"]);
        return Err(Error::MeasurementError { reason: join(&parts) });
    }
    let n = state.num_qubits();
    let mut i: usize = 0;
    while i < ks.len()
        invariant
            ks@ == keep_qubits@,
            n == state.qubit_count(),
            i <= ks@.len(),
            subsystem_fault(ks@.take(i as int), n) is None,
        decreases ks@.len() - i,
    {
        let q = ks[i];
        proof {
            assert(ks@.take(i as int + 1).drop_last() =~= ks@.take(i as int));
            assert(ks@.take(i as int + 1).last() == q);
        }
        if q >= n {
            proof {
                assert(subsystem_fault(ks@.take(i as int + 1), n) == Some(
                    Fault::QubitIndex { index: q, max: n },
                ));
                lemma_subsystem_fault_prefix(ks@, n, i as int + 1);
            }
            return Err(Error::InvalidQubitIndex { index: q, max: n });
        }
        let mut j: usize = 0;
        while j < i
            invariant
                ks@ == keep_qubits@,
                i < ks@.len(),
                n == state.qubit_count(),
                q < n,
                subsystem_fault(ks@.take(i as int), n) is None,
                ks@.take(i as int + 1).drop_last() == ks@.take(i as int),
                ks@.take(i as int + 1).last() == q,
                q == ks@[i as int],
                j <= i,
                forall|m: int| 0 <= m < j ==> ks@[m] != q,
            decreases i - j,
        {
            if ks[j] == q {
                proof {
                    assert(ks@.take(i as int)[j as int] == q);
                    assert(ks@.take(i as int).contains(q));
                    assert(subsystem_fault(ks@.take(i as int + 1), n) == Some(Fault::Measurement));
                    lemma_subsystem_fault_prefix(ks@, n, i as int + 1);
                }
                let d = decimal_text(q);
                let ds: &str = d.as_str();
                proof {
                    lemma_joined_small("Subsystem contains duplicate qubit ", ds, "");
                }
                return Err(
                    Error::MeasurementError {
                        reason: join(&["Subsystem contains duplicate qubit ", ds]),
                    },
                );
            }
            j = j + 1;
        }
        proof {
            if ks@.take(i as int).contains(q) {
                let m = choose|m: int| 0 <= m < i && ks@.take(i as int)[m] == q;
                assert(ks@[m] == q);
            }
        }
        i = i + 1;
    }
    proof {
        assert(ks@.take(ks@.len() as int) =~= ks@);
    }
    Ok(())
}

/// A fault found in a prefix is the fault of the whole list.
proof fn lemma_subsystem_fault_prefix(ks: Seq<usize>, n: usize, k: int)
    requires
        0 <= k <= ks.len(),
        subsystem_fault(ks.take(k), n) is Some,
    ensures
        subsystem_fault(ks, n) == subsystem_fault(ks.take(k), n),
        subsystem_message(ks, n) == subsystem_message(ks.take(k), n),
    decreases ks.len() - k,
{
    if k < ks.len() {
        assert(ks.take(k + 1).drop_last() =~= ks.take(k));
        lemma_subsystem_fault_prefix(ks, n, k + 1);
    } else {
        assert(ks.take(k) =~= ks);
    }
}

/// The mask with the bits of all `qubits` set.
pub fn bit_mask(qubits: &[usize]) -> (r: usize)
    requires
        forall|k: int| 0 <= k < qubits@.len() ==> qubits@[k] < usize::BITS,
    ensures
        r == mask_of(qubits@),
{
    let mut mask: usize = 0;
    let mut i: usize = 0;
    while i < qubits.len()
        invariant
            forall|k: int| 0 <= k < qubits@.len() ==> qubits@[k] < usize::BITS,
            i <= qubits@.len(),
            mask == mask_of(qubits@.take(i as int)),
        decreases qubits@.len() - i,
    {
        proof {
            assert(qubits@.take(i as int + 1).drop_last() =~= qubits@.take(i as int));
        }
        mask = mask | (1usize << qubits[i]);
        i = i + 1;
    }
    proof {
        assert(qubits@.take(qubits@.len() as int) =~= qubits@);
    }
    mask
}

proof fn lemma_project_step(r: usize, b: usize, i: usize, d: usize)
    by (bit_vector)
    requires
        b <= 1,
        i < usize::BITS,
        r >> i == 0,
    ensures
        ((r | (b << i)) >> i) & 1 == b,
        d < i ==> ((r | (b << i)) >> d) & 1 == (r >> d) & 1,
        i + 1 < usize::BITS ==> (r | (b << i)) >> (i + 1) == 0,
{
}

proof fn lemma_no_high_bits(r: usize, i: usize, d: usize)
    by (bit_vector)
    requires
        i <= d < usize::BITS,
        r >> i == 0,
    ensures
        (r >> d) & 1 == 0,
{
}

/// The index, within the subsystem `keep_qubits`, of basis state `index`:
/// bit `d` of the result is bit `keep_qubits[d]` of `index`, and no higher bit is set.
pub fn project_index(index: usize, keep_qubits: &[usize]) -> (r: usize)
    requires
        keep_qubits@.len() <= usize::BITS,
        forall|k: int| 0 <= k < keep_qubits@.len() ==> keep_qubits@[k] < usize::BITS,
    ensures
        forall|d: int|
            0 <= d < keep_qubits@.len() ==> #[trigger] index_bit(r, d) == index_bit(
                index,
                keep_qubits@[d] as int,
            ),
        forall|d: int| keep_qubits@.len() <= d ==> !#[trigger] index_bit(r, d),
{
    let mut projected: usize = 0;
    let mut dst: usize = 0;
    proof {
        assert(0usize >> 0usize == 0) by (bit_vector);
    }
    while dst < keep_qubits.len()
        invariant
            keep_qubits@.len() <= usize::BITS,
            forall|k: int| 0 <= k < keep_qubits@.len() ==> keep_qubits@[k] < usize::BITS,
            dst <= keep_qubits@.len(),
            dst < usize::BITS ==> projected >> dst == 0,
            forall|d: int|
                0 <= d < dst ==> #[trigger] index_bit(projected, d) == index_bit(
                    index,
                    keep_qubits@[d] as int,
                ),
        decreases keep_qubits@.len() - dst,
    {
        let src_qubit = keep_qubits[dst];
        let b = (index >> src_qubit) & 1;
        let ghost prev = projected;
        proof {
            assert(b <= 1) by (bit_vector)
                requires
                    b == (index >> src_qubit) & 1,
            ;
        }
        projected = projected | (b << dst);
        proof {
            assert forall|d: int| 0 <= d < dst + 1 implies #[trigger] index_bit(projected, d)
                == index_bit(index, keep_qubits@[d] as int) by {
                if d < dst {
                    lemma_project_step(prev, b, dst, d as usize);
                    assert(index_bit(prev, d) == index_bit(index, keep_qubits@[d] as int));
                } else {
                    lemma_project_step(prev, b, dst, 0);
                    assert(keep_qubits@[d] == src_qubit);
                }
            }
            lemma_project_step(prev, b, dst, 0);
        }
        dst = dst + 1;
    }
    proof {
        assert forall|d: int| keep_qubits@.len() <= d implies !#[trigger] index_bit(projected, d) by {
            if d < usize::BITS {
                lemma_no_high_bits(projected, dst, d as usize);
            }
        }
    }
    projected
}

/// The Pauli operators a Pauli string may hold.
pub open spec fn pauli_op_ok(c: char) -> bool {
    c == 'I' || c == 'X' || c == 'Y' || c == 'Z'
}

/// Every character of `p` is a Pauli operator.
pub open spec fn pauli_ops_valid(p: Seq<char>) -> bool {
    forall|k: int| 0 <= k < p.len() ==> pauli_op_ok(#[trigger] p[k])
}

/// The last character of `p` that is not a Pauli operator (the first one met
/// when reading from the end).
pub open spec fn last_invalid_op(p: Seq<char>) -> char
    decreases p.len(),
{
    if p.len() == 0 {
        ' '
    } else if !pauli_op_ok(p.last()) {
        p.last()
    } else {
        last_invalid_op(p.drop_last())
    }
}

proof fn lemma_last_invalid(p: Seq<char>, j: int)
    requires
        0 <= j < p.len(),
        !pauli_op_ok(p[j]),
        forall|k: int| j < k < p.len() ==> pauli_op_ok(#[trigger] p[k]),
    ensures
        last_invalid_op(p) == p[j],
    decreases p.len(),
{
    if j < p.len() - 1 {
        assert(pauli_op_ok(p[p.len() - 1]));
        assert forall|k: int| j < k < p.drop_last().len() implies pauli_op_ok(#[trigger] p.drop_last()[k]) by {
            assert(p.drop_last()[k] == p[k]);
        }
        lemma_last_invalid(p.drop_last(), j);
        assert(p.drop_last()[j] == p[j]);
    }
}

/// One operator `op` on qubit `q`, read as a row of its matrix: component `idx`
/// of `op` applied to a state is `i^phase` times component `image` of the
/// state, where `(image, phase)` is the result, given the pair reached so far.
/// With `Y = [[0, -i], [i, 0]]`, a clear bit takes `-i` (three quarter turns)
/// and a set bit `+i`; with `Z = [[1, 0], [0, -1]]`, a set bit takes `-1`.
pub open spec fn pauli_step(acc: (usize, nat), idx: usize, op: char, q: usize) -> (usize, nat) {
    let set = index_bit(idx, q as int);
    if op == 'X' {
        (acc.0 ^ bit(q), acc.1)
    } else if op == 'Y' {
        (acc.0 ^ bit(q), (acc.1 + if set { 1nat } else { 3nat }) % 4)
    } else if op == 'Z' {
        (acc.0, if set { (acc.1 + 2) % 4 } else { acc.1 })
    } else {
        acc
    }
}

/// The operators on qubits `0..k` of the string `p`, whose last character
/// acts on qubit 0, applied to basis state `idx`.
pub open spec fn pauli_prefix(idx: usize, p: Seq<char>, k: nat) -> (usize, nat)
    decreases k,
{
    if k == 0 {
        (idx, 0)
    } else {
        pauli_step(pauli_prefix(idx, p, (k - 1) as nat), idx, p[p.len() - k], (k - 1) as usize)
    }
}

/// Row `idx` of the Pauli string `p`: component `idx` of `p` applied to a
/// state is `i^phase` times component `image` of the state, for
/// `(image, phase) == pauli_term(idx, p)`.
pub open spec fn pauli_term(idx: usize, p: Seq<char>) -> (usize, nat) {
    pauli_prefix(idx, p, p.len())
}

proof fn lemma_flip_in_range(m: usize, k: usize, n: usize)
    by (bit_vector)
    requires
        m < (1usize << n),
        k < n,
        n <= 30,
    ensures
        (m ^ (1usize << k)) < (1usize << n),
{
}

/// Checks a Pauli string against a state and computes, for every basis state
/// `idx`, the pair `(image, phase)` with `(P psi)[idx] == i^phase * psi[image]`. The string must have one operator per qubit (its last character acts on
/// qubit 0), each of `I`, `X`, `Y`, `Z`.
pub fn pauli_terms<A: Copy>(state: &QuantumState<A>, pauli_string: &str) -> (r: Result<
    Vec<(usize, u8)>,
    Error,
>)
    requires
        state.wf(),
    ensures
        outcome(r) == (if pauli_string.spec_bytes().len() != state.qubit_count() || !pauli_ops_valid(
            pauli_string@,
        ) {
            Some(Fault::Measurement)
        } else {
            None
        }),
        r matches Err(e) ==> message_of(e) == if pauli_string.spec_bytes().len() as usize
            != state.qubit_count() {
            "Pauli string length "@ + decimal(pauli_string.spec_bytes().len() as usize)
                + " does not match qubit count "@ + decimal(state.qubit_count())
        } else {
            "Invalid Pauli operator '"@ + seq![last_invalid_op(pauli_string@)] + "'. Use only I/X/Y/Z"@
        },
        r matches Ok(v) ==> {
            &&& v@.len() == state@.len()
            &&& forall|i: int|
                0 <= i < v@.len() ==> (#[trigger] v@[i]).0 < state@.len() && (v@[i].0, v@[i].1 as nat)
                    == pauli_term(i as usize, pauli_string@)
        },
{
    let n = state.num_qubits();
    proof {
        state.lemma_wf();
    }
    let byte_len = pauli_string.len();
    if byte_len != n {
        let mut msg = String::new();
        msg.append("Pauli string length ");
        msg.append(decimal_text(byte_len).as_str());
        msg.append(" does not match qubit count ");
        msg.append(decimal_text(n).as_str());
        return Err(Error::MeasurementError { reason: msg });
    }
    let ghost p = pauli_string@;
    let m = pauli_string.unicode_len();
    let mut ops: Vec<char> = Vec::new();
    let mut k: usize = 0;
    while k < m
        invariant
            m == p.len(),
            p == pauli_string@,
            pauli_string.spec_bytes().len() as usize == state.qubit_count(),
            k <= m,
            ops@.len() == k,
            forall|j: int| 0 <= j < k ==> ops@[j] == p[p.len() - 1 - j] && pauli_op_ok(ops@[j]),
        decreases m - k,
    {
        let c = pauli_string.get_char(m - 1 - k);
        if !(c == 'I' || c == 'X' || c == 'Y' || c == 'Z') {
            let shown = char_text(c);
            let mut msg = String::new();
            msg.append("Invalid Pauli operator '");
            msg.append(shown.as_str());
            msg.append("'. Use only I/X/Y/Z");
            proof {
                assert forall|kk: int| (m - 1 - k) < kk < p.len() implies pauli_op_ok(#[trigger] p[kk]) by {
                    let j = p.len() - 1 - kk;
                    assert(ops@[j] == p[p.len() - 1 - j]);
                }
                lemma_last_invalid(p, (m - 1 - k) as int);
            }
            return Err(Error::MeasurementError { reason: msg });
        }
        ops.push(c);
        k = k + 1;
    }
    proof {
        assert forall|j: int| 0 <= j < p.len() implies pauli_op_ok(#[trigger] p[j]) by {
            assert(ops@[p.len() - 1 - j] == p[j]);
        }
        assert(vstd::utf8::is_ascii_chars(p));
        vstd::utf8::is_ascii_chars_encode_utf8(p);
        assert(m == n);
    }
    let size = state.size();
    let mut terms: Vec<(usize, u8)> = Vec::new();
    let mut idx: usize = 0;
    while idx < size
        invariant
            size == state@.len(),
            size == dim(n),
            1 <= n <= 30,
            m == n,
            m == p.len(),
            ops@.len() == m,
            forall|j: int| 0 <= j < m ==> ops@[j] == p[p.len() - 1 - j],
            idx <= size,
            terms@.len() == idx,
            forall|i: int|
                0 <= i < idx ==> (#[trigger] terms@[i]).0 < size && (terms@[i].0, terms@[i].1 as nat)
                    == pauli_term(i as usize, p),
        decreases size - idx,
    {
        let mut mapped: usize = idx;
        let mut phase: u8 = 0;
        let mut q: usize = 0;
        while q < n
            invariant
                size == dim(n),
                1 <= n <= 30,
                m == n,
                m == p.len(),
                ops@.len() == m,
                forall|j: int| 0 <= j < m ==> ops@[j] == p[p.len() - 1 - j],
                idx < size,
                q <= n,
                mapped < size,
                phase < 4,
                (mapped, phase as nat) == pauli_prefix(idx, p, q as nat),
            decreases n - q,
        {
            let op = ops[q];
            let set = (idx >> q) & 1 == 1;
            proof {
                assert(op == p[p.len() - (q + 1)]);
                assert(set == index_bit(idx, q as int));
                lemma_flip_in_range(mapped, q, n);
            }
            if op == 'X' {
                mapped = mapped ^ (1usize << q);
            } else if op == 'Y' {
                mapped = mapped ^ (1usize << q);
                phase = if set {
                    (phase + 1) % 4
                } else {
                    (phase + 3) % 4
                };
            } else if op == 'Z' {
                if set {
                    phase = (phase + 2) % 4;
                }
            }
            q = q + 1;
        }
        terms.push((mapped, phase));
        idx = idx + 1;
    }
    Ok(terms)
}

/// Whether the operator of `p` on qubit `q` flips that qubit (`X` or `Y`).
pub open spec fn pauli_flips(p: Seq<char>, q: int) -> bool {
    p[p.len() - 1 - q] == 'X' || p[p.len() - 1 - q] == 'Y'
}

/// The qubits among `0..k` that `p` flips, as a mask.
pub open spec fn flip_mask(p: Seq<char>, k: nat) -> usize
    decreases k,
{
    if k == 0 {
        0
    } else {
        flip_mask(p, (k - 1) as nat) ^ if pauli_flips(p, k - 1) {
            bit((k - 1) as usize)
        } else {
            0
        }
    }
}

proof fn lemma_xor_bits(x: usize, m: usize, q: usize, k: usize)
    by (bit_vector)
    requires
        q < 32,
        k < 32,
    ensures
        (((x ^ m) >> q) & 1 == 1) == (((x >> q) & 1 == 1) != ((m >> q) & 1 == 1)),
        (((m ^ (1usize << k)) >> q) & 1 == 1) == (((m >> q) & 1 == 1) != (q == k)),
        ((m ^ 0) >> q) & 1 == (m >> q) & 1,
        (0usize >> q) & 1 == 0,
        (x ^ m) ^ m == x,
        x ^ 0 == x,
        m ^ 0 == m,
        (x ^ m) ^ (1usize << k) == x ^ (m ^ (1usize << k)),
{
}

/// The image index of `x` under the first `k` operators is `x` with the
/// flipped qubits toggled.
proof fn lemma_prefix_index(x: usize, p: Seq<char>, k: nat)
    requires
        k <= p.len() <= 30,
    ensures
        pauli_prefix(x, p, k).0 == x ^ flip_mask(p, k),
        forall|q: int|
            0 <= q < 30 ==> #[trigger] index_bit(flip_mask(p, k), q) == (q < k && pauli_flips(p, q)),
    decreases k,
{
    if k == 0 {
        lemma_xor_bits(x, 0, 0, 0);
        assert forall|q: int| 0 <= q < 30 implies #[trigger] index_bit(flip_mask(p, k), q) == (q < k
            && pauli_flips(p, q)) by {
            lemma_xor_bits(x, 0, q as usize, 0);
        }
    } else {
        let j = (k - 1) as nat;
        lemma_prefix_index(x, p, j);
        let m = flip_mask(p, j);
        lemma_xor_bits(x, m, 0, j as usize);
        assert forall|q: int| 0 <= q < 30 implies #[trigger] index_bit(flip_mask(p, k), q) == (q < k
            && pauli_flips(p, q)) by {
            lemma_xor_bits(x, m, q as usize, j as usize);
            assert(index_bit(m, q) == (q < j && pauli_flips(p, q)));
        }
    }
}

/// Phases of `idx` and of an index `y` that differs from it exactly in the
/// flipped qubits cancel.
proof fn lemma_prefix_phases(idx: usize, y: usize, p: Seq<char>, k: nat)
    requires
        k <= p.len() <= 30,
        forall|q: int|
            0 <= q < k ==> #[trigger] index_bit(y, q) == (index_bit(idx, q) != pauli_flips(p, q)),
    ensures
        pauli_prefix(idx, p, k).1 < 4,
        pauli_prefix(y, p, k).1 < 4,
        (pauli_prefix(idx, p, k).1 + pauli_prefix(y, p, k).1) % 4 == 0,
    decreases k,
{
    if k > 0 {
        let j = (k - 1) as nat;
        lemma_prefix_phases(idx, y, p, j);
        assert(index_bit(y, j as int) == (index_bit(idx, j as int) != pauli_flips(p, j as int)));
    }
}

/// A Pauli string is its own inverse: the row of its image points back to
/// `idx`, and the two phases cancel.
pub proof fn lemma_pauli_involution(idx: usize, p: Seq<char>)
    requires
        p.len() <= 30,
    ensures
        pauli_term(pauli_term(idx, p).0, p).0 == idx,
        (pauli_term(idx, p).1 + pauli_term(pauli_term(idx, p).0, p).1) % 4 == 0,
{
    let n = p.len();
    lemma_prefix_index(idx, p, n);
    let y = pauli_term(idx, p).0;
    lemma_prefix_index(y, p, n);
    let m = flip_mask(p, n);
    lemma_xor_bits(idx, m, 0, 0);
    assert forall|q: int| 0 <= q < n implies #[trigger] index_bit(y, q) == (index_bit(idx, q)
        != pauli_flips(p, q)) by {
        lemma_xor_bits(idx, m, q as usize, 0);
        assert(index_bit(m, q) == (q < n && pauli_flips(p, q)));
    }
    lemma_prefix_phases(idx, y, p, n);
}

} // verus!
