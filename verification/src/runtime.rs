//! Execution planner: groups gates into layers whose gates touch distinct
//! qubits, each gate after every earlier gate it shares a qubit with.
use vstd::prelude::*;
use crate::circuit::{Circuit, GateInstruction, GateSpec, copy_gates, gate_views, lemma_gate_views};
use crate::error::Error;

verus! {

/// The qubits a gate touches: its controls and its target.
pub open spec fn gate_qubits(g: GateSpec) -> Seq<usize> {
    g.involved_qubits()
}

/// No gate of `layer` shares a qubit with `g`.
pub open spec fn fits(layer: Seq<GateSpec>, g: GateSpec) -> bool {
    forall|i: int, k: int|
        0 <= i < layer.len() && 0 <= k < gate_qubits(g).len() ==> !#[trigger] gate_qubits(
            layer[i],
        ).contains(#[trigger] gate_qubits(g)[k])
}

/// Gates `a` and `b` touch a common qubit.
pub open spec fn shares_qubit(a: GateSpec, b: GateSpec) -> bool {
    exists|q: usize| gate_qubits(a).contains(q) && gate_qubits(b).contains(q)
}

/// The first layer `g` may join: the one just after the last layer holding a
/// gate that shares a qubit with `g`, or the first layer when there is none.
pub open spec fn earliest_layer(layers: Seq<Seq<GateSpec>>, g: GateSpec) -> nat
    decreases layers.len(),
{
    if layers.len() == 0 {
        0
    } else if !fits(layers.last(), g) {
        layers.len()
    } else {
        earliest_layer(layers.drop_last(), g)
    }
}

/// `g` added to its earliest layer, or to a new last layer.
pub open spec fn place(layers: Seq<Seq<GateSpec>>, g: GateSpec) -> Seq<Seq<GateSpec>> {
    let k = earliest_layer(layers, g);
    if k < layers.len() {
        layers.update(k as int, layers[k as int].push(g))
    } else {
        layers.push(seq![g])
    }
}

/// The layers obtained by placing the gates `gs` one after another.
pub open spec fn plan_of(gs: Seq<GateSpec>) -> Seq<Seq<GateSpec>>
    decreases gs.len(),
{
    if gs.len() == 0 {
        Seq::empty()
    } else {
        place(plan_of(gs.drop_last()), gs.last())
    }
}

/// The layer each gate of `gs` is placed in.
pub open spec fn levels(gs: Seq<GateSpec>) -> Seq<nat>
    decreases gs.len(),
{
    if gs.len() == 0 {
        Seq::empty()
    } else {
        levels(gs.drop_last()).push(earliest_layer(plan_of(gs.drop_last()), gs.last()))
    }
}

/// The gates of `gs` whose level in `lv` is `l`, in their order in `gs`.
pub open spec fn layer_gates(gs: Seq<GateSpec>, lv: Seq<nat>, l: nat) -> Seq<GateSpec>
    decreases gs.len(),
{
    if gs.len() == 0 {
        Seq::empty()
    } else {
        let rest = layer_gates(gs.drop_last(), lv.drop_last(), l);
        if lv.last() == l {
            rest.push(gs.last())
        } else {
            rest
        }
    }
}

/// The gates of all layers, layer after layer.
pub open spec fn concat_layers(ls: Seq<Seq<GateSpec>>) -> Seq<GateSpec>
    decreases ls.len(),
{
    if ls.len() == 0 {
        Seq::empty()
    } else {
        concat_layers(ls.drop_last()) + ls.last()
    }
}

/// A layer of gates that can be executed in parallel (no qubit conflicts).
#[derive(Debug)]
pub struct GateLayer {
    pub gates: Vec<GateInstruction>,
}

impl View for GateLayer {
    type V = Seq<GateSpec>;

    open spec fn view(&self) -> Seq<GateSpec> {
        gate_views(self.gates@)
    }
}

impl Clone for GateLayer {
    fn clone(&self) -> (r: Self)
        ensures
            r@ == self@,
    {
        GateLayer { gates: copy_gates(&self.gates) }
    }
}

/// Extract qubits used by a gate.
fn extract_qubits(gate: &GateInstruction) -> (r: Vec<usize>)
    ensures
        r@ == gate_qubits(gate@),
{
    gate.involved_qubits()
}

impl GateLayer {
    /// Check if a gate can be added to this layer (no qubit conflicts).
    pub fn can_add(&self, gate: &GateInstruction) -> (r: bool)
        ensures
            r == fits(self@, gate@),
    {
        let gate_qubits_v = extract_qubits(gate);
        let ghost l = self@;
        proof {
            lemma_gate_views(self.gates@, self.gates@, *gate);
        }
        let mut e: usize = 0;
        while e < self.gates.len()
            invariant
                l == self@,
                l.len() == self.gates@.len(),
                gate_qubits_v@ == gate_qubits(gate@),
                e <= l.len(),
                forall|i: int, k: int|
                    0 <= i < e && 0 <= k < gate_qubits(gate@).len() ==> !#[trigger] gate_qubits(
                        l[i],
                    ).contains(#[trigger] gate_qubits(gate@)[k]),
            decreases l.len() - e,
        {
            let existing_qubits = extract_qubits(&self.gates[e]);
            proof {
                lemma_gate_views(self.gates@, self.gates@, *gate);
                assert(l[e as int] == self.gates@[e as int]@);
            }
            let mut k: usize = 0;
            while k < gate_qubits_v.len()
                invariant
                    l == self@,
                    e < l.len(),
                    gate_qubits_v@ == gate_qubits(gate@),
                    existing_qubits@ == gate_qubits(l[e as int]),
                    k <= gate_qubits_v@.len(),
                    forall|j: int|
                        0 <= j < k ==> !gate_qubits(l[e as int]).contains(
                            #[trigger] gate_qubits(gate@)[j],
                        ),
                decreases gate_qubits_v@.len() - k,
            {
                if crate::circuit::contains_index(&existing_qubits, gate_qubits_v[k]) {
                    assert(gate_qubits(l[e as int]).contains(gate_qubits(gate@)[k as int]));
                    return false;
                }
                k = k + 1;
            }
            e = e + 1;
        }
        true
    }

    /// Add a gate to this layer (the caller checks `can_add` first).
    pub fn add(&mut self, gate: GateInstruction)
        ensures
            final(self)@ == old(self)@.push(gate@),
    {
        proof {
            lemma_gate_views(self.gates@, self.gates@, gate);
        }
        self.gates.push(gate);
    }
}

/// Execution plan: circuit broken into parallel layers.
#[derive(Debug)]
pub struct ExecutionPlan {
    pub layers: Vec<GateLayer>,
}

/// The gates of each layer.
pub open spec fn layer_views(ls: Seq<GateLayer>) -> Seq<Seq<GateSpec>> {
    ls.map_values(|l: GateLayer| l@)
}

impl View for ExecutionPlan {
    type V = Seq<Seq<GateSpec>>;

    open spec fn view(&self) -> Seq<Seq<GateSpec>> {
        layer_views(self.layers@)
    }
}

/// Total number of gates over all layers.
pub open spec fn gate_total(ls: Seq<Seq<GateSpec>>) -> nat
    decreases ls.len(),
{
    if ls.len() == 0 {
        0
    } else {
        gate_total(ls.drop_last()) + ls.last().len()
    }
}

impl ExecutionPlan {
    /// Create execution plan from circuit: each gate joins the first layer
    /// after every layer that holds a gate sharing a qubit with it, so that
    /// running the layers in order runs the gates in dependency order.
    pub fn from_circuit(circuit: &Circuit) -> (r: Result<Self, Error>)
        ensures
            r is Ok,
            r matches Ok(p) ==> {
                let gs = circuit@.gates;
                &&& p@ == plan_of(gs)
                // the layers, read in order, hold each gate once: gate `i` in
                // layer `levels(gs)[i]`, each layer in circuit order
                &&& levels(gs).len() == gs.len()
                &&& (forall|i: int| 0 <= i < gs.len() ==> #[trigger] levels(gs)[i] < p@.len())
                &&& (forall|l: int| 0 <= l < p@.len() ==> #[trigger] p@[l] == layer_gates(gs, levels(gs), l as nat))
                &&& concat_layers(p@).to_multiset() == gs.to_multiset()
                // no two gates of a layer share a qubit
                &&& layers_conflict_free(p@)
                // a gate comes in a later layer than every earlier gate it shares a qubit with
                &&& forall|i: int, j: int|
                    0 <= i < j < gs.len() && #[trigger] shares_qubit(gs[i], gs[j]) ==> levels(gs)[i] < levels(gs)[j]
            },
    {
        let ghost gs = circuit@.gates;
        let mut layers: Vec<GateLayer> = Vec::new();
        let mut g: usize = 0;
        proof {
            assert(layer_views(layers@) =~= plan_of(gs.take(0)));
        }
        while g < circuit.gates.len()
            invariant
                gs == circuit@.gates,
                gs.len() == circuit.gates@.len(),
                g <= gs.len(),
                layer_views(layers@) == plan_of(gs.take(g as int)),
            decreases gs.len() - g,
        {
            let gate = &circuit.gates[g];
            let ghost before = layer_views(layers@);
            proof {
                lemma_gate_views(circuit.gates@, circuit.gates@, *gate);
                assert(gs[g as int] == gate@);
                assert(gs.take(g as int + 1).drop_last() =~= gs.take(g as int));
                assert(gs.take(g as int + 1).last() == gate@);
                assert(before.take(0) =~= Seq::<Seq<GateSpec>>::empty());
            }
            let mut k: usize = 0;
            let mut i: usize = 0;
            while i < layers.len()
                invariant
                    layer_views(layers@) == before,
                    before.len() == layers@.len(),
                    i <= layers@.len(),
                    k <= i,
                    k == earliest_layer(before.take(i as int), gate@),
                decreases layers@.len() - i,
            {
                proof {
                    assert(before.take(i as int + 1).drop_last() =~= before.take(i as int));
                    assert(before.take(i as int + 1).last() == before[i as int]);
                    assert(layer_views(layers@)[i as int] == layers@[i as int]@);
                }
                if !layers[i].can_add(gate) {
                    k = i + 1;
                }
                i = i + 1;
            }
            proof {
                assert(before.take(before.len() as int) =~= before);
                assert(plan_of(gs.take(g as int + 1)) == place(before, gate@));
            }
            if k < layers.len() {
                let ghost old_layers = layers@;
                assert(layer_views(old_layers)[k as int] == old_layers[k as int]@);
                let c = gate.clone();
                let mut layer = layers.remove(k);
                layer.add(c);
                let ghost lv = layer@;
                layers.insert(k, layer);
                proof {
                    assert(layers@ =~= old_layers.update(k as int, layers@[k as int]));
                    assert(layers@[k as int]@ == lv);
                    assert(lv == before[k as int].push(gate@));
                    assert forall|j: int| 0 <= j < before.len() implies #[trigger] layer_views(
                        layers@,
                    )[j] == before.update(k as int, before[k as int].push(gate@))[j] by {
                        assert(layer_views(layers@)[j] == layers@[j]@);
                        if j != k {
                            assert(layers@[j] == old_layers[j]);
                            assert(layer_views(old_layers)[j] == old_layers[j]@);
                        }
                    }
                    assert(layer_views(layers@) =~= before.update(
                        k as int,
                        before[k as int].push(gate@),
                    ));
                }
            } else {
                let mut new_layer = GateLayer { gates: Vec::new() };
                proof {
                    assert(new_layer@ =~= Seq::<GateSpec>::empty());
                }
                new_layer.add(gate.clone());
                layers.push(new_layer);
                proof {
                    assert(layer_views(layers@) =~= before.push(seq![gate@]));
                }
            }
            g = g + 1;
        }
        proof {
            assert(gs.take(gs.len() as int) =~= gs);
            lemma_plan_layers(gs);
            lemma_plan_is_permutation(gs);
            lemma_plan_conflict_free(gs);
            lemma_plan_respects_dependencies(gs);
        }
        Ok(ExecutionPlan { layers })
    }

    /// Number of layers.
    pub fn num_layers(&self) -> (r: usize)
        ensures
            r == self@.len(),
    {
        self.layers.len()
    }

    /// Total number of gates.
    pub fn total_gates(&self) -> (r: usize)
        requires
            gate_total(self@) <= usize::MAX,
        ensures
            r == gate_total(self@),
    {
        let ghost ls = self@;
        let mut total: usize = 0;
        let mut i: usize = 0;
        while i < self.layers.len()
            invariant
                ls == self@,
                ls.len() == self.layers@.len(),
                gate_total(ls) <= usize::MAX,
                i <= ls.len(),
                total == gate_total(ls.take(i as int)),
            decreases ls.len() - i,
        {
            proof {
                assert(ls.take(i as int + 1).drop_last() =~= ls.take(i as int));
                assert(ls[i as int] == self.layers@[i as int]@);
                lemma_gate_total_prefix(ls, i as int + 1);
                lemma_gate_views(self.layers@[i as int].gates@, self.layers@[i as int].gates@,
                    self.layers@[i as int].gates@[0]);
            }
            total = total + self.layers[i].gates.len();
            i = i + 1;
        }
        proof {
            assert(ls.take(ls.len() as int) =~= ls);
        }
        total
    }
}

proof fn lemma_gate_total_prefix(ls: Seq<Seq<GateSpec>>, k: int)
    requires
        0 <= k <= ls.len(),
    ensures
        gate_total(ls.take(k)) <= gate_total(ls),
    decreases ls.len(),
{
    if k < ls.len() {
        assert(ls.drop_last().take(k) =~= ls.take(k));
        lemma_gate_total_prefix(ls.drop_last(), k);
    } else {
        assert(ls.take(k) =~= ls);
    }
}

// ---------------------------------------------------------------------------
// Laws

proof fn lemma_gate_total_update(ls: Seq<Seq<GateSpec>>, k: int, g: GateSpec)
    requires
        0 <= k < ls.len(),
    ensures
        gate_total(ls.update(k, ls[k].push(g))) == gate_total(ls) + 1,
    decreases ls.len(),
{
    let u = ls.update(k, ls[k].push(g));
    if k < ls.len() - 1 {
        assert(u.drop_last() =~= ls.drop_last().update(k, ls.drop_last()[k].push(g)));
        lemma_gate_total_update(ls.drop_last(), k, g);
    } else {
        assert(u.drop_last() =~= ls.drop_last());
    }
}

/// Where the earliest layer lies: no later than the end, every layer from it
/// on fits `g`, and every layer that does not fit `g` comes before it.
proof fn lemma_earliest(layers: Seq<Seq<GateSpec>>, g: GateSpec)
    ensures
        earliest_layer(layers, g) <= layers.len(),
        forall|j: int|
            earliest_layer(layers, g) <= j < layers.len() ==> fits(#[trigger] layers[j], g),
        forall|j: int| 0 <= j < layers.len() && !fits(#[trigger] layers[j], g) ==> j < earliest_layer(layers, g),
    decreases layers.len(),
{
    if layers.len() > 0 {
        lemma_earliest(layers.drop_last(), g);
        assert forall|j: int| 0 <= j < layers.len() - 1 implies #[trigger] layers[j]
            == layers.drop_last()[j] by {}
    }
}

/// Planning places every gate exactly once: the layers hold as many gates as the circuit.
pub proof fn lemma_plan_keeps_gate_count(gs: Seq<GateSpec>)
    ensures
        gate_total(plan_of(gs)) == gs.len(),
    decreases gs.len(),
{
    if gs.len() > 0 {
        let before = plan_of(gs.drop_last());
        lemma_plan_keeps_gate_count(gs.drop_last());
        lemma_earliest(before, gs.last());
        let k = earliest_layer(before, gs.last());
        if k < before.len() {
            lemma_gate_total_update(before, k as int, gs.last());
        } else {
            assert(before.push(seq![gs.last()]).drop_last() =~= before);
        }
    }
}

proof fn lemma_layer_gates_absent(gs: Seq<GateSpec>, lv: Seq<nat>, l: nat)
    requires
        lv.len() == gs.len(),
        forall|i: int| 0 <= i < lv.len() ==> #[trigger] lv[i] != l,
    ensures
        layer_gates(gs, lv, l) == Seq::<GateSpec>::empty(),
    decreases gs.len(),
{
    if gs.len() > 0 {
        assert forall|i: int| 0 <= i < lv.drop_last().len() implies #[trigger] lv.drop_last()[i]
            != l by {
            assert(lv.drop_last()[i] == lv[i]);
        }
        lemma_layer_gates_absent(gs.drop_last(), lv.drop_last(), l);
        assert(lv[lv.len() - 1] != l);
    }
}

proof fn lemma_layer_gates_contains(gs: Seq<GateSpec>, lv: Seq<nat>, i: int)
    requires
        lv.len() == gs.len(),
        0 <= i < gs.len(),
    ensures
        layer_gates(gs, lv, lv[i]).contains(gs[i]),
    decreases gs.len(),
{
    let rest = layer_gates(gs.drop_last(), lv.drop_last(), lv[i]);
    if i == gs.len() - 1 {
        assert(rest.push(gs.last())[rest.len() as int] == gs[i]);
    } else {
        assert(lv.drop_last()[i] == lv[i]);
        assert(gs.drop_last()[i] == gs[i]);
        lemma_layer_gates_contains(gs.drop_last(), lv.drop_last(), i);
        let j = choose|j: int| 0 <= j < rest.len() && rest[j] == gs[i];
        if lv.last() == lv[i] {
            assert(rest.push(gs.last())[j] == gs[i]);
        }
    }
}

/// Every gate has a layer of the plan, and each layer holds exactly the gates
/// placed in it, in circuit order.
pub proof fn lemma_plan_layers(gs: Seq<GateSpec>)
    ensures
        levels(gs).len() == gs.len(),
        forall|i: int| 0 <= i < gs.len() ==> #[trigger] levels(gs)[i] < plan_of(gs).len(),
        forall|l: int|
            0 <= l < plan_of(gs).len() ==> #[trigger] plan_of(gs)[l] == layer_gates(
                gs,
                levels(gs),
                l as nat,
            ),
    decreases gs.len(),
{
    if gs.len() > 0 {
        let rest = gs.drop_last();
        let g = gs.last();
        let p = plan_of(rest);
        let lv = levels(rest);
        lemma_plan_layers(rest);
        lemma_earliest(p, g);
        let k = earliest_layer(p, g);
        let lv2 = levels(gs);
        assert(lv2 == lv.push(k));
        assert(lv2.drop_last() =~= lv);
        let after = plan_of(gs);
        assert(after == place(p, g));
        assert forall|i: int| 0 <= i < gs.len() implies #[trigger] lv2[i] < after.len() by {
            if i < rest.len() {
                assert(lv2[i] == lv[i]);
            }
        }
        assert forall|l: int| 0 <= l < after.len() implies #[trigger] after[l] == layer_gates(
            gs,
            lv2,
            l as nat,
        ) by {
            assert(layer_gates(gs, lv2, l as nat) == (if k == l {
                layer_gates(rest, lv, l as nat).push(g)
            } else {
                layer_gates(rest, lv, l as nat)
            }));
            if l == p.len() {
                assert forall|i: int| 0 <= i < lv.len() implies #[trigger] lv[i] != l as nat by {}
                lemma_layer_gates_absent(rest, lv, l as nat);
                assert(after[l] =~= Seq::<GateSpec>::empty().push(g));
            }
        }
    }
}

proof fn lemma_concat_update(ls: Seq<Seq<GateSpec>>, k: int, g: GateSpec)
    requires
        0 <= k < ls.len(),
    ensures
        concat_layers(ls.update(k, ls[k].push(g))).to_multiset() == concat_layers(
            ls,
        ).to_multiset().insert(g),
    decreases ls.len(),
{
    broadcast use vstd::seq_lib::group_to_multiset_ensures, vstd::seq_lib::lemma_multiset_commutative;

    let u = ls.update(k, ls[k].push(g));
    let front = concat_layers(ls.drop_last());
    if k < ls.len() - 1 {
        assert(u.drop_last() =~= ls.drop_last().update(k, ls.drop_last()[k].push(g)));
        lemma_concat_update(ls.drop_last(), k, g);
        assert(u.last() == ls.last());
        assert(concat_layers(u) == concat_layers(u.drop_last()) + ls.last());
        assert(concat_layers(u).to_multiset() =~= concat_layers(u.drop_last()).to_multiset().add(
            ls.last().to_multiset(),
        ));
        assert(concat_layers(ls).to_multiset() =~= front.to_multiset().add(ls.last().to_multiset()));
    } else {
        assert(u.drop_last() =~= ls.drop_last());
        assert(concat_layers(u) == front + ls.last().push(g));
        assert(front + ls.last().push(g) =~= (front + ls.last()).push(g));
    }
}

/// The layers, read in order, hold exactly the gates of the circuit: the same
/// gates, each as often.
pub proof fn lemma_plan_is_permutation(gs: Seq<GateSpec>)
    ensures
        concat_layers(plan_of(gs)).to_multiset() == gs.to_multiset(),
    decreases gs.len(),
{
    broadcast use vstd::seq_lib::group_to_multiset_ensures;

    if gs.len() == 0 {
        assert(concat_layers(plan_of(gs)) =~= gs);
    } else {
        let rest = gs.drop_last();
        let g = gs.last();
        let p = plan_of(rest);
        lemma_plan_is_permutation(rest);
        lemma_earliest(p, g);
        let k = earliest_layer(p, g);
        if k < p.len() {
            lemma_concat_update(p, k as int, g);
        } else {
            assert(p.push(seq![g]).drop_last() =~= p);
            assert(concat_layers(p.push(seq![g])) =~= concat_layers(p).push(g));
        }
        assert(rest.push(g) =~= gs);
    }
}

/// No two gates of one layer share a qubit.
pub open spec fn layers_conflict_free(ls: Seq<Seq<GateSpec>>) -> bool {
    forall|l: int, a: int, b: int, k: int|
        0 <= l < ls.len() && 0 <= a < b < ls[l].len() && 0 <= k < gate_qubits(ls[l][b]).len()
            ==> !#[trigger] gate_qubits(ls[l][a]).contains(#[trigger] gate_qubits(ls[l][b])[k])
}

/// Every layer of a plan is free of qubit conflicts.
pub proof fn lemma_plan_conflict_free(gs: Seq<GateSpec>)
    ensures
        layers_conflict_free(plan_of(gs)),
    decreases gs.len(),
{
    if gs.len() > 0 {
        let g = gs.last();
        let before = plan_of(gs.drop_last());
        lemma_plan_conflict_free(gs.drop_last());
        lemma_earliest(before, g);
        let k = earliest_layer(before, g);
        let after = plan_of(gs);
        assert(after == place(before, g));
        if k < before.len() {
            assert(fits(before[k as int], g));
        }
        assert forall|l: int, a: int, b: int, q: int|
            0 <= l < after.len() && 0 <= a < b < after[l].len() && 0 <= q < gate_qubits(
                after[l][b],
            ).len() implies !#[trigger] gate_qubits(after[l][a]).contains(
            #[trigger] gate_qubits(after[l][b])[q],
        ) by {
            if k < before.len() {
                if l == k {
                    if b == before[l].len() {
                        assert(after[l][b] == g);
                        assert(after[l][a] == before[l][a]);
                    } else {
                        assert(after[l][a] == before[l][a]);
                        assert(after[l][b] == before[l][b]);
                    }
                } else {
                    assert(after[l] == before[l]);
                }
            } else {
                if l < before.len() {
                    assert(after[l] == before[l]);
                }
            }
        }
    }
}

/// Dependencies are kept: when an earlier gate shares a qubit with a later
/// one, it is placed in an earlier layer, so running the layers in order runs
/// every pair of gates on a common qubit in circuit order.
pub proof fn lemma_plan_respects_dependencies(gs: Seq<GateSpec>)
    ensures
        forall|i: int, j: int|
            0 <= i < j < gs.len() && #[trigger] shares_qubit(gs[i], gs[j]) ==> levels(gs)[i] < levels(
                gs,
            )[j],
    decreases gs.len(),
{
    if gs.len() > 0 {
        let rest = gs.drop_last();
        let g = gs.last();
        let p = plan_of(rest);
        let lv = levels(rest);
        lemma_plan_respects_dependencies(rest);
        lemma_plan_layers(rest);
        lemma_earliest(p, g);
        let k = earliest_layer(p, g);
        let lv2 = levels(gs);
        assert(lv2 == lv.push(k));
        assert forall|i: int, j: int|
            0 <= i < j < gs.len() && #[trigger] shares_qubit(gs[i], gs[j]) implies lv2[i] < lv2[j] by {
            assert(lv2[i] == lv[i]);
            if j < rest.len() {
                assert(gs[i] == rest[i] && gs[j] == rest[j]);
                assert(shares_qubit(rest[i], rest[j]));
                assert(lv2[j] == lv[j]);
            } else {
                let l = lv[i] as int;
                assert(gs[i] == rest[i]);
                lemma_layer_gates_contains(rest, lv, i);
                assert(p[l] == layer_gates(rest, lv, lv[i]));
                let a = choose|a: int| 0 <= a < p[l].len() && p[l][a] == gs[i];
                let q = choose|q: usize| gate_qubits(gs[i]).contains(q) && gate_qubits(gs[j]).contains(q);
                let kk = choose|kk: int| 0 <= kk < gate_qubits(g).len() && gate_qubits(g)[kk] == q;
                assert(gs[j] == g);
                assert(gate_qubits(p[l][a]).contains(gate_qubits(g)[kk]));
                assert(!fits(p[l], g));
            }
        }
    }
}

} // verus!
