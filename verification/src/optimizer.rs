//! Circuit optimization: removal of cancelling gate pairs, gate fusion, and
//! circuit metrics.
use vstd::prelude::*;
use crate::circuit::{circuit_fault, gate_fault, gates_fault, Circuit, CircuitSpec, GateInstruction, GateSpec, copy_gates, copy_opt_noise, gate_views, lemma_gate_views};
use crate::error::Error;
use crate::kinds::{GateKind, gate_kind_named, gate_kind_of};
use crate::text::{to_upper, upper_text, same_text};

verus! {

/// Gates that undo themselves when applied twice.
pub open spec fn self_inverse_kind(k: GateKind) -> bool {
    k == GateKind::H || k == GateKind::X || k == GateKind::Y || k == GateKind::Z
}

/// A gate with nothing beyond its name and target: no control qubits, no
/// classical condition, no repetition and no noise.
pub open spec fn plain(g: GateSpec) -> bool {
    &&& g.control is None
    &&& (g.controls is None || g.controls->0.len() == 0)
    &&& g.condition is None
    &&& g.repeat is None
    &&& g.noise is None
}

/// Two adjacent gates, with upper-cased names `ua` and `ub`, that the
/// optimizer removes together: the same self-inverse gate on the same target,
/// both plain.
pub open spec fn cancels_named(ua: Seq<char>, ub: Seq<char>, a: GateSpec, b: GateSpec) -> bool {
    &&& self_inverse_kind(gate_kind_named(ua))
    &&& ua == ub
    &&& a.target == b.target
    &&& plain(a)
    &&& plain(b)
}

/// Two adjacent gates that the optimizer removes together.
pub open spec fn cancels(a: GateSpec, b: GateSpec) -> bool {
    cancels_named(upper_text(a.gate_type), upper_text(b.gate_type), a, b)
}

/// Whether a gate is plain.
pub fn is_plain(g: &GateInstruction) -> (r: bool)
    ensures
        r == plain(g@),
{
    let no_list = match &g.controls {
        Some(v) => v.len() == 0,
        None => true,
    };
    g.control.is_none() && no_list && g.condition.is_none() && g.repeat.is_none()
        && g.noise.is_none()
}

/// Whether adjacent gates `a` and `b`, whose upper-cased names are `upper_a`
/// and `upper_b`, cancel each other.
pub fn pair_cancels(upper_a: &str, upper_b: &str, a: &GateInstruction, b: &GateInstruction) -> (r:
    bool)
    ensures
        r == cancels_named(upper_a@, upper_b@, a@, b@),
{
    let k = gate_kind_of(upper_a);
    let self_inverse = k == GateKind::H || k == GateKind::X || k == GateKind::Y || k == GateKind::Z;
    self_inverse && same_text(upper_a, upper_b) && a.target == b.target && is_plain(a) && is_plain(b)
}

/// Scanning left to right, drop each cancelling adjacent pair; the scan does
/// not step back after a removal.
pub open spec fn cancel_pairs(s: Seq<GateSpec>) -> Seq<GateSpec>
    decreases s.len(),
{
    if s.len() < 2 {
        s
    } else if cancels(s[0], s[1]) {
        cancel_pairs(s.skip(2))
    } else {
        seq![s[0]] + cancel_pairs(s.skip(1))
    }
}

/// `c` with its gate list replaced.
pub open spec fn with_gates(c: CircuitSpec, gates: Seq<GateSpec>) -> CircuitSpec {
    CircuitSpec { gates, ..c }
}

/// Optimize a circuit by removing redundant gates and fusing operations.
pub fn optimize_circuit(circuit: &Circuit) -> (r: Result<Circuit, Error>)
    ensures
        r is Ok,
        r matches Ok(o) ==> o@ == with_gates(circuit@, cancel_pairs(circuit@.gates)),
{
    let optimized = circuit.clone();
    let optimized = remove_self_inverses(&optimized)?;
    let optimized = fuse_single_qubit_gates(&optimized)?;
    Ok(optimized)
}

/// Remove gates that are self-inverse (H H = I, X X = I).
pub fn remove_self_inverses(circuit: &Circuit) -> (r: Result<Circuit, Error>)
    ensures
        r is Ok,
        r matches Ok(o) ==> o@ == with_gates(circuit@, cancel_pairs(circuit@.gates)),
{
    let mut gates = copy_gates(&circuit.gates);
    let ghost target = cancel_pairs(circuit@.gates);
    let mut i: usize = 0;
    proof {
        assert(gate_views(gates@).take(0) + gate_views(gates@).skip(0) =~= gate_views(gates@));
        assert(gate_views(gates@).skip(0) =~= gate_views(gates@));
    }
    while gates.len() > 0 && i < gates.len() - 1
        invariant
            i <= gates@.len(),
            gate_views(gates@).take(i as int) + cancel_pairs(gate_views(gates@).skip(i as int))
                == target,
        decreases gates@.len() - i,
    {
        let ghost v = gate_views(gates@);
        let current_type = to_upper(gates[i].gate_type.as_str());
        let next_type = to_upper(gates[i + 1].gate_type.as_str());
        assert(v.skip(i as int)[0] == gates@[i as int]@);
        assert(v.skip(i as int)[1] == gates@[i as int + 1]@);
        if pair_cancels(current_type.as_str(), next_type.as_str(), &gates[i], &gates[i + 1]) {
            gates.remove(i + 1);
            gates.remove(i);
            proof {
                let w = gate_views(gates@);
                assert(w.take(i as int) =~= v.take(i as int));
                assert(w.skip(i as int) =~= v.skip(i as int).skip(2));
            }
            continue;
        }
        proof {
            let w = v.skip(i as int);
            assert(w.skip(1) =~= v.skip(i as int + 1));
            assert(v.take(i as int + 1) =~= v.take(i as int) + seq![w[0]]);
        }
        i = i + 1;
    }
    proof {
        let v = gate_views(gates@);
        assert(v.take(i as int) + v.skip(i as int) =~= v);
    }
    Ok(
        Circuit {
            qubits: circuit.qubits,
            classical_bits: circuit.classical_bits,
            gates,
            global_noise: copy_opt_noise(&circuit.global_noise),
            readout_noise: copy_opt_noise(&circuit.readout_noise),
        },
    )
}

/// Names of gates that act on a single qubit with no controls.
pub open spec fn single_qubit_kind(k: GateKind) -> bool {
    ||| k == GateKind::X
    ||| k == GateKind::Y
    ||| k == GateKind::Z
    ||| k == GateKind::H
    ||| k == GateKind::S
    ||| k == GateKind::T
    ||| k == GateKind::Rx
    ||| k == GateKind::Ry
    ||| k == GateKind::Rz
}

/// Check if an upper-cased gate name is a single-qubit gate.
pub fn is_single_qubit_gate(gate_type: &str) -> (r: bool)
    ensures
        r == single_qubit_kind(gate_kind_named(gate_type@)),
{
    let k = gate_kind_of(gate_type);
    k == GateKind::X || k == GateKind::Y || k == GateKind::Z || k == GateKind::H || k
        == GateKind::S || k == GateKind::T || k == GateKind::Rx || k == GateKind::Ry || k
        == GateKind::Rz
}

/// Whether gate `g` may join a run of fused gates on `target`.
fn joins_run(g: &GateInstruction, target: usize) -> (r: bool)
    ensures
        r == (g.target == Some(target) && single_qubit_kind(g@.kind()) && g.noise is None),
{
    if g.target != Some(target) {
        return false;
    }
    let u = to_upper(g.gate_type.as_str());
    is_single_qubit_gate(u.as_str()) && g.noise.is_none()
}

/// Fuse consecutive single-qubit gates; every gate is kept, in order.
pub fn fuse_single_qubit_gates(circuit: &Circuit) -> (r: Result<Circuit, Error>)
    ensures
        r is Ok,
        r matches Ok(o) ==> o@ == circuit@,
{
    let gates = copy_gates(&circuit.gates);
    let mut optimized: Vec<GateInstruction> = Vec::new();
    let mut i: usize = 0;
    while i < gates.len()
        invariant
            gate_views(gates@) == gate_views(circuit.gates@),
            i <= gates@.len(),
            gate_views(optimized@) == gate_views(gates@).take(i as int),
        decreases gates@.len() - i,
    {
        let u = to_upper(gates[i].gate_type.as_str());
        if is_single_qubit_gate(u.as_str()) && gates[i].target.is_some() && gates[i].noise.is_none() {
            let target = gates[i].target.unwrap();
            let mut fused: Vec<GateInstruction> = Vec::new();
            fused.push(gates[i].clone());
            let mut j: usize = i + 1;
            proof {
                lemma_gate_views(fused@, fused@, gates@[0]);
                lemma_gate_views(gates@, gates@, gates@[0]);
                assert(gate_views(fused@) =~= gate_views(gates@).subrange(i as int, j as int));
            }
            while j < gates.len() && joins_run(&gates[j], target)
                invariant
                    i < j <= gates@.len(),
                    gate_views(fused@) == gate_views(gates@).subrange(i as int, j as int),
                decreases gates@.len() - j,
            {
                let g = gates[j].clone();
                proof {
                    lemma_gate_views(fused@, fused@, g);
                    lemma_gate_views(gates@, gates@, g);
                    assert(gate_views(fused@.push(g)) =~= gate_views(gates@).subrange(
                        i as int,
                        j as int + 1,
                    ));
                }
                fused.push(g);
                j = j + 1;
            }
            proof {
                lemma_gate_views(optimized@, fused@, gates@[0]);
                assert(gate_views(optimized@ + fused@) =~= gate_views(gates@).take(j as int));
            }
            optimized.append(&mut fused);
            i = j;
        } else {
            let g = gates[i].clone();
            proof {
                lemma_gate_views(optimized@, optimized@, g);
                lemma_gate_views(gates@, gates@, g);
                assert(gate_views(optimized@.push(g)) =~= gate_views(gates@).take(i as int + 1));
            }
            optimized.push(g);
            i = i + 1;
        }
    }
    proof {
        assert(gate_views(gates@).take(gates@.len() as int) =~= gate_views(gates@));
    }
    Ok(
        Circuit {
            qubits: circuit.qubits,
            classical_bits: circuit.classical_bits,
            gates: optimized,
            global_noise: copy_opt_noise(&circuit.global_noise),
            readout_noise: copy_opt_noise(&circuit.readout_noise),
        },
    )
}

// ---------------------------------------------------------------------------
// Metrics

/// The largest entry of `d` among the positions `qs` (0 when `qs` is empty).
pub open spec fn max_at(d: Seq<nat>, qs: Seq<usize>) -> nat
    decreases qs.len(),
{
    if qs.len() == 0 {
        0
    } else {
        let rest = max_at(d, qs.drop_last());
        let x = d[qs.last() as int];
        if x > rest {
            x
        } else {
            rest
        }
    }
}

/// Per-qubit depth after one gate touching `qs`: each touched qubit moves one
/// past the deepest of them.
pub open spec fn depth_step(d: Seq<nat>, qs: Seq<usize>) -> Seq<nat> {
    if qs.len() == 0 {
        d
    } else {
        let base = max_at(d, qs) + 1;
        Seq::new(d.len(), |q: int| if qs.contains(q as usize) { base } else { d[q] })
    }
}

/// Per-qubit depth after the gates `gs`, starting from zero on `n` qubits.
pub open spec fn depths(gs: Seq<GateSpec>, n: nat) -> Seq<nat>
    decreases gs.len(),
{
    if gs.len() == 0 {
        Seq::new(n, |q: int| 0nat)
    } else {
        depth_step(depths(gs.drop_last(), n), gs.last().involved_qubits())
    }
}

/// The largest entry (0 for the empty sequence).
pub open spec fn seq_max(d: Seq<nat>) -> nat
    decreases d.len(),
{
    if d.len() == 0 {
        0
    } else {
        let rest = seq_max(d.drop_last());
        if d.last() > rest {
            d.last()
        } else {
            rest
        }
    }
}

/// Every qubit a gate touches is one of the circuit's qubits.
pub open spec fn touches_only_own_qubits(c: CircuitSpec) -> bool {
    forall|i: int, k: int|
        0 <= i < c.gates.len() && 0 <= k < c.gates[i].involved_qubits().len()
            ==> #[trigger] c.gates[i].involved_qubits()[k] < c.qubits
}

/// Longest chain of gates that share qubits.
pub open spec fn depth_of(c: CircuitSpec) -> nat {
    seq_max(depths(c.gates, c.qubits as nat))
}

proof fn lemma_max_at_bound(d: Seq<nat>, qs: Seq<usize>, b: nat)
    requires
        forall|k: int| 0 <= k < qs.len() ==> qs[k] < d.len(),
        forall|q: int| 0 <= q < d.len() ==> d[q] <= b,
    ensures
        max_at(d, qs) <= b,
    decreases qs.len(),
{
    if qs.len() > 0 {
        lemma_max_at_bound(d, qs.drop_last(), b);
    }
}

proof fn lemma_max_at_ge(d: Seq<nat>, qs: Seq<usize>)
    ensures
        forall|k: int| 0 <= k < qs.len() ==> d[qs[k] as int] <= max_at(d, qs),
    decreases qs.len(),
{
    if qs.len() > 0 {
        lemma_max_at_ge(d, qs.drop_last());
        assert forall|k: int| 0 <= k < qs.len() implies d[qs[k] as int] <= max_at(d, qs) by {
            if k < qs.len() - 1 {
                assert(qs.drop_last()[k] == qs[k]);
            }
        }
    }
}

proof fn lemma_depths_bound(gs: Seq<GateSpec>, n: nat)
    requires
        forall|i: int, k: int|
            0 <= i < gs.len() && 0 <= k < gs[i].involved_qubits().len()
                ==> #[trigger] gs[i].involved_qubits()[k] < n,
    ensures
        depths(gs, n).len() == n,
        forall|q: int| 0 <= q < n ==> #[trigger] depths(gs, n)[q] <= gs.len(),
    decreases gs.len(),
{
    if gs.len() > 0 {
        let p = gs.drop_last();
        assert forall|i: int, k: int|
            0 <= i < p.len() && 0 <= k < p[i].involved_qubits().len() implies #[trigger] p[i].involved_qubits()[k]
            < n by {
            assert(p[i] == gs[i]);
        }
        lemma_depths_bound(p, n);
        let qs = gs.last().involved_qubits();
        assert forall|k: int| 0 <= k < qs.len() implies qs[k] < depths(p, n).len() by {
            assert(gs[gs.len() - 1] == gs.last());
            assert(gs[gs.len() - 1].involved_qubits()[k] < n);
        }
        lemma_max_at_bound(depths(p, n), qs, p.len());
    }
}

proof fn lemma_seq_max_bound(d: Seq<nat>, b: nat)
    requires
        forall|q: int| 0 <= q < d.len() ==> d[q] <= b,
    ensures
        seq_max(d) <= b,
    decreases d.len(),
{
    if d.len() > 0 {
        lemma_seq_max_bound(d.drop_last(), b);
    }
}

/// Calculate circuit depth (longest path in DAG).
pub fn circuit_depth(circuit: &Circuit) -> (r: usize)
    requires
        touches_only_own_qubits(circuit@),
    ensures
        r == depth_of(circuit@),
        r <= circuit@.gates.len(),
{
    let ghost c = circuit@;
    let ghost n = circuit.qubits as nat;
    let mut depth: Vec<usize> = Vec::new();
    let mut q0: usize = 0;
    while q0 < circuit.qubits
        invariant
            q0 <= circuit.qubits,
            depth@.len() == q0,
            forall|q: int| 0 <= q < q0 ==> depth@[q] == 0,
        decreases circuit.qubits - q0,
    {
        depth.push(0);
        q0 = q0 + 1;
    }
    proof {
        assert(depth@.map_values(|x: usize| x as nat) =~= depths(c.gates.take(0), n));
    }
    let mut g: usize = 0;
    while g < circuit.gates.len()
        invariant
            c == circuit@,
            n == circuit.qubits,
            touches_only_own_qubits(c),
            c.gates.len() == circuit.gates@.len(),
            g <= circuit.gates@.len(),
            depth@.len() == n,
            depth@.map_values(|x: usize| x as nat) == depths(c.gates.take(g as int), n),
            forall|q: int| 0 <= q < n ==> depth@[q] <= g,
        decreases circuit.gates@.len() - g,
    {
        let involved = circuit.gates[g].involved_qubits();
        let ghost qs = involved@;
        let ghost d = depth@.map_values(|x: usize| x as nat);
        proof {
            assert(c.gates[g as int] == circuit.gates@[g as int]@);
            assert(c.gates.take(g as int + 1).drop_last() =~= c.gates.take(g as int));
            assert(c.gates.take(g as int + 1).last() == c.gates[g as int]);
            assert forall|k: int| 0 <= k < qs.len() implies qs[k] < n by {
                assert(c.gates[g as int].involved_qubits()[k] < c.qubits);
            }
        }
        if involved.len() > 0 {
            let mut best: usize = 0;
            let mut k: usize = 0;
            while k < involved.len()
                invariant
                    qs == involved@,
                    d == depth@.map_values(|x: usize| x as nat),
                    depth@.len() == n,
                    forall|j: int| 0 <= j < qs.len() ==> qs[j] < n,
                    forall|q: int| 0 <= q < n ==> depth@[q] <= g,
                    k <= qs.len(),
                    best == max_at(d, qs.take(k as int)),
                    best <= g,
                decreases qs.len() - k,
            {
                let x = depth[involved[k]];
                proof {
                    assert(qs.take(k as int + 1).drop_last() =~= qs.take(k as int));
                    assert(qs.take(k as int + 1).last() == qs[k as int]);
                }
                if x > best {
                    best = x;
                }
                k = k + 1;
            }
            assert(qs.take(qs.len() as int) =~= qs);
            let base = best + 1;
            let ghost old_depth = depth@;
            let mut k: usize = 0;
            while k < involved.len()
                invariant
                    qs == involved@,
                    n == circuit.qubits,
                    depth@.len() == n,
                    old_depth.len() == n,
                    forall|j: int| 0 <= j < qs.len() ==> qs[j] < n,
                    k <= qs.len(),
                    base == max_at(d, qs) + 1,
                    d == old_depth.map_values(|x: usize| x as nat),
                    qs.no_duplicates(),
                    forall|q: int|
                        0 <= q < n ==> #[trigger] depth@[q] == if qs.take(k as int).contains(
                            q as usize,
                        ) {
                            base
                        } else {
                            old_depth[q]
                        },
                decreases qs.len() - k,
            {
                let q = involved[k];
                proof {
                    lemma_max_at_ge(d, qs);
                    assert(d[q as int] <= max_at(d, qs));
                    assert(!qs.take(k as int).contains(q)) by {
                        if qs.take(k as int).contains(q) {
                            let j = choose|j: int| 0 <= j < k && qs.take(k as int)[j] == q;
                            assert(qs[j] == qs[k as int]);
                        }
                    }
                    assert(depth@[q as int] == old_depth[q as int]);
                }
                let ghost prev = depth@;
                if depth[q] < base {
                    depth.set(q, base);
                }
                proof {
                    let t0 = qs.take(k as int);
                    let t1 = qs.take(k as int + 1);
                    assert(t1 =~= t0.push(q));
                    assert(t1[k as int] == q);
                    assert forall|p: int| 0 <= p < n implies #[trigger] depth@[p] == if t1.contains(
                        p as usize,
                    ) {
                        base
                    } else {
                        old_depth[p]
                    } by {
                        if p == q as int {
                            assert(t1.contains(q));
                        } else {
                            assert(depth@[p] == prev[p]);
                            assert(prev[p] == if t0.contains(p as usize) {
                                base
                            } else {
                                old_depth[p]
                            });
                            if t1.contains(p as usize) {
                                let j = choose|j: int| 0 <= j < t1.len() && t1[j] == p as usize;
                                assert((p as usize) as int == p);
                                assert(j < k);
                                assert(t0[j] == p as usize);
                                assert(t0.contains(p as usize));
                            }
                            if t0.contains(p as usize) {
                                let j = choose|j: int| 0 <= j < t0.len() && t0[j] == p as usize;
                                assert(t1[j] == p as usize);
                                assert(t1.contains(p as usize));
                            }
                        }
                    }
                }
                k = k + 1;
            }
            proof {
                assert(qs.take(qs.len() as int) =~= qs);
                assert(depth@.map_values(|x: usize| x as nat) =~= depth_step(d, qs));
            }
        } else {
            proof {
                assert(depth@.map_values(|x: usize| x as nat) =~= depth_step(d, qs));
            }
        }
        g = g + 1;
    }
    let mut result: usize = 0;
    let mut q: usize = 0;
    let ghost dn = depth@.map_values(|x: usize| x as nat);
    proof {
        assert(c.gates.take(c.gates.len() as int) =~= c.gates);
    }
    while q < depth.len()
        invariant
            dn == depth@.map_values(|x: usize| x as nat),
            q <= depth@.len(),
            result == seq_max(dn.take(q as int)),
            forall|p: int| 0 <= p < depth@.len() ==> depth@[p] <= circuit.gates@.len(),
            result <= circuit.gates@.len(),
        decreases depth@.len() - q,
    {
        proof {
            assert(dn.take(q as int + 1).drop_last() =~= dn.take(q as int));
        }
        if depth[q] > result {
            result = depth[q];
        }
        q = q + 1;
    }
    proof {
        assert(dn.take(dn.len() as int) =~= dn);
    }
    result
}

/// Number of gates among `gs` touching exactly two qubits.
pub open spec fn two_qubit_count(gs: Seq<GateSpec>) -> nat
    decreases gs.len(),
{
    if gs.len() == 0 {
        0
    } else {
        two_qubit_count(gs.drop_last()) + if gs.last().involved_qubits().len() == 2 {
            1nat
        } else {
            0nat
        }
    }
}

proof fn lemma_two_qubit_count_bound(gs: Seq<GateSpec>)
    ensures
        two_qubit_count(gs) <= gs.len(),
    decreases gs.len(),
{
    if gs.len() > 0 {
        lemma_two_qubit_count_bound(gs.drop_last());
    }
}

/// Count the number of two-qubit gates.
pub fn count_two_qubit_gates(circuit: &Circuit) -> (r: usize)
    ensures
        r == two_qubit_count(circuit@.gates),
{
    let ghost gs = circuit@.gates;
    let mut count: usize = 0;
    let mut i: usize = 0;
    while i < circuit.gates.len()
        invariant
            gs == circuit@.gates,
            gs.len() == circuit.gates@.len(),
            i <= gs.len(),
            count == two_qubit_count(gs.take(i as int)),
        decreases gs.len() - i,
    {
        proof {
            assert(gs.take(i as int + 1).drop_last() =~= gs.take(i as int));
            assert(gs.take(i as int + 1).last() == circuit.gates@[i as int]@);
            lemma_two_qubit_count_bound(gs.take(i as int));
        }
        if circuit.gates[i].involved_qubits().len() == 2 {
            count = count + 1;
        }
        i = i + 1;
    }
    proof {
        assert(gs.take(gs.len() as int) =~= gs);
    }
    count
}

// ---------------------------------------------------------------------------
// Laws

/// Removing cancelling pairs never adds a gate: the result is no longer than
/// the input, shorter by an even number, and holds only gates of the input.
pub proof fn lemma_cancel_pairs_shrinks(s: Seq<GateSpec>)
    ensures
        cancel_pairs(s).len() <= s.len(),
        (s.len() - cancel_pairs(s).len()) % 2 == 0,
        forall|i: int| 0 <= i < cancel_pairs(s).len() ==> s.contains(#[trigger] cancel_pairs(s)[i]),
    decreases s.len(),
{
    if s.len() >= 2 {
        if cancels(s[0], s[1]) {
            lemma_cancel_pairs_shrinks(s.skip(2));
            assert forall|i: int| 0 <= i < cancel_pairs(s).len() implies s.contains(
                #[trigger] cancel_pairs(s)[i],
            ) by {
                let x = cancel_pairs(s)[i];
                let j = choose|j: int| 0 <= j < s.skip(2).len() && s.skip(2)[j] == x;
                assert(s[j + 2] == x);
            }
        } else {
            lemma_cancel_pairs_shrinks(s.skip(1));
            assert forall|i: int| 0 <= i < cancel_pairs(s).len() implies s.contains(
                #[trigger] cancel_pairs(s)[i],
            ) by {
                let x = cancel_pairs(s)[i];
                if i == 0 {
                    assert(s[0] == x);
                } else {
                    assert(cancel_pairs(s)[i] == cancel_pairs(s.skip(1))[i - 1]);
                    let j = choose|j: int| 0 <= j < s.skip(1).len() && s.skip(1)[j] == x;
                    assert(s[j + 1] == x);
                }
            }
        }
    }
}

proof fn lemma_depths_len(gs: Seq<GateSpec>, n: nat)
    ensures
        depths(gs, n).len() == n,
    decreases gs.len(),
{
    if gs.len() > 0 {
        lemma_depths_len(gs.drop_last(), n);
    }
}

/// Depth follows every qubit a gate touches, its controls included: after
/// gate `g`, each qubit `g` touches lies deeper than every qubit `g` touched
/// before it, all of them at the same depth, and the other qubits keep theirs.
pub proof fn lemma_depth_after_gate(gs: Seq<GateSpec>, g: GateSpec, n: nat)
    requires
        forall|k: int| 0 <= k < g.involved_qubits().len() ==> #[trigger] g.involved_qubits()[k] < n,
    ensures
        depths(gs.push(g), n).len() == n,
        forall|p: usize, q: usize|
            p < n && q < n && g.involved_qubits().contains(p) && g.involved_qubits().contains(q)
                ==> #[trigger] depths(gs.push(g), n)[q as int] >= #[trigger] depths(gs, n)[p as int]
                + 1 && depths(gs.push(g), n)[q as int] == depths(gs.push(g), n)[p as int],
        forall|q: usize|
            q < n && !g.involved_qubits().contains(q) ==> #[trigger] depths(gs.push(g), n)[q as int]
                == depths(gs, n)[q as int],
{
    let qs = g.involved_qubits();
    let d = depths(gs, n);
    lemma_depths_len(gs, n);
    assert(gs.push(g).drop_last() =~= gs);
    assert(depths(gs.push(g), n) == depth_step(d, qs));
    lemma_max_at_ge(d, qs);
    assert forall|p: usize| p < n && qs.contains(p) implies d[p as int] <= max_at(d, qs) by {
        let j = choose|j: int| 0 <= j < qs.len() && qs[j] == p;
        assert(d[qs[j] as int] <= max_at(d, qs));
    }
}

/// Only a gate that is its own inverse cancels: two adjacent gates are removed
/// together only when both name the same gate among H, X, Y and Z (the gates
/// whose square is the identity), on the same target, with no controls,
/// condition, repetition or noise.
pub proof fn lemma_cancelling_pair_is_identity(a: GateSpec, b: GateSpec)
    requires
        cancels(a, b),
    ensures
        a.kind() == GateKind::H || a.kind() == GateKind::X || a.kind() == GateKind::Y || a.kind()
            == GateKind::Z,
        b.kind() == a.kind(),
        a.target == b.target,
        a.control is None && b.control is None,
        a.condition is None && b.condition is None,
        a.repeat is None && b.repeat is None,
        a.noise is None && b.noise is None,
{
}

/// Gates other than H, X, Y and Z are never removed: each occurs as often after
/// cancellation as before.
pub proof fn lemma_cancel_pairs_keeps_other_gates(s: Seq<GateSpec>, x: GateSpec)
    requires
        !(x.kind() == GateKind::H || x.kind() == GateKind::X || x.kind() == GateKind::Y || x.kind()
            == GateKind::Z),
    ensures
        cancel_pairs(s).to_multiset().count(x) == s.to_multiset().count(x),
    decreases s.len(),
{
    broadcast use vstd::seq_lib::group_to_multiset_ensures, vstd::seq_lib::lemma_multiset_commutative;

    if s.len() >= 2 {
        if cancels(s[0], s[1]) {
            lemma_cancel_pairs_keeps_other_gates(s.skip(2), x);
            assert(s =~= seq![s[0], s[1]] + s.skip(2));
            assert(seq![s[0], s[1]] =~= Seq::<GateSpec>::empty().push(s[0]).push(s[1]));
            assert(s[0] != x && s[1] != x);
        } else {
            lemma_cancel_pairs_keeps_other_gates(s.skip(1), x);
            assert(s =~= seq![s[0]] + s.skip(1));
            assert(seq![s[0]] =~= Seq::<GateSpec>::empty().push(s[0]));
        }
    }
}

/// A gate list passes validation exactly when each of its gates does.
pub proof fn lemma_gates_fault_none(c: CircuitSpec, s: Seq<GateSpec>)
    ensures
        gates_fault(c, s) is None <==> forall|i: int| 0 <= i < s.len() ==> #[trigger] gate_fault(c, s[i]) is None,
    decreases s.len(),
{
    if s.len() > 0 {
        lemma_gates_fault_none(c, s.drop_first());
        if gates_fault(c, s) is None {
            assert forall|i: int| 0 <= i < s.len() implies #[trigger] gate_fault(c, s[i]) is None by {
                if i > 0 {
                    assert(s.drop_first()[i - 1] == s[i]);
                }
            }
        }
        if forall|i: int| 0 <= i < s.len() ==> #[trigger] gate_fault(c, s[i]) is None {
            assert(gate_fault(c, s[0]) is None);
            assert forall|i: int| 0 <= i < s.drop_first().len() implies #[trigger] gate_fault(
                c,
                s.drop_first()[i],
            ) is None by {
                assert(s.drop_first()[i] == s[i + 1]);
            }
        }
    }
}

/// Optimization keeps a valid circuit valid.
pub proof fn lemma_optimize_preserves_validity(c: CircuitSpec)
    requires
        circuit_fault(c) is None,
    ensures
        circuit_fault(with_gates(c, cancel_pairs(c.gates))) is None,
{
    let t = cancel_pairs(c.gates);
    let o = with_gates(c, t);
    lemma_cancel_pairs_shrinks(c.gates);
    lemma_gates_fault_none(c, c.gates);
    lemma_gates_fault_none(o, t);
    assert forall|i: int| 0 <= i < t.len() implies #[trigger] gate_fault(o, t[i]) is None by {
        let x = t[i];
        let j = choose|j: int| 0 <= j < c.gates.len() && c.gates[j] == x;
        assert(gate_fault(c, c.gates[j]) is None);
        assert(gate_fault(o, x) == gate_fault(c, x));
    }
}

} // verus!
