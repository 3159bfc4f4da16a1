//! Circuit description: gates, noise channels, and the rules a circuit must obey.
//!
//! Real numbers (angles, probabilities, matrix entries) are carried as their
//! IEEE-754 bit patterns. The checks on their values (range, unitarity,
//! completeness) are made where the numbers are read, and their verdicts are
//! stored beside them.
use vstd::prelude::*;
use crate::error::{Error, Fault, fault_of, message_of, outcome};
use crate::text::{join, joined, lemma_joined_small, to_upper, upper_text, decimal, decimal_text};
use crate::kinds::{GateKind, NoiseKind, gate_kind_named, gate_kind_of, noise_kind_named, noise_kind_of, axis_named, axis_of};

verus! {

/// Classical condition for conditional gate execution.
#[derive(Debug, Clone, Copy)]
pub struct ClassicalCondition {
    /// Classical register index to inspect.
    pub register: usize,
    /// Required boolean value for execution.
    pub value: bool,
}

/// A complex number given by the bit patterns of its real and imaginary parts.
#[derive(Debug, Clone, Copy)]
pub struct ComplexBits {
    pub re: u64,
    pub im: u64,
}

/// A single-qubit matrix, row-major.
pub type Matrix2x2 = [[ComplexBits; 2]; 2];

/// Verdicts of the floating-point tests on a noise channel's numbers.
///
/// Whoever builds a `NoiseConfig` sets these where the numbers are read;
/// `Circuit::validate` takes them as given and does not recompute them.
#[derive(Debug, Clone, Copy)]
pub struct NoiseChecks {
    /// `probability` lies in `[0, 1]`.
    pub probability_in_range: bool,
    /// `t1 > 0`, `t2 > 0` and `dt >= 0` (for the values that are present).
    pub relaxation_times_valid: bool,
    /// The Kraus operators satisfy `sum K^dagger K = I` within `1e-6`.
    pub kraus_complete: bool,
}

/// Noise configuration for a gate.
#[derive(Debug)]
pub struct NoiseConfig {
    pub noise_type: String,
    pub probability: u64,
    pub channels: Option<Vec<NoiseConfig>>,
    pub t1: Option<u64>,
    pub t2: Option<u64>,
    pub dt: Option<u64>,
    pub angle: Option<u64>,
    pub axis: Option<String>,
    pub coupled_qubits: Option<Vec<usize>>,
    pub kraus: Option<Vec<Matrix2x2>>,
    pub checks: NoiseChecks,
}

/// A quantum gate instruction.
#[derive(Debug)]
pub struct GateInstruction {
    pub gate_type: String,
    pub target: Option<usize>,
    pub control: Option<usize>,
    pub controls: Option<Vec<usize>>,
    pub parameter: Option<u64>,
    pub matrix: Option<Matrix2x2>,
    /// The matrix, when present, is unitary within `1e-8`. Set where the
    /// matrix is read; `Circuit::validate` takes it as given.
    pub matrix_is_unitary: bool,
    pub condition: Option<ClassicalCondition>,
    pub cbit: Option<usize>,
    pub repeat: Option<usize>,
    pub noise: Option<NoiseConfig>,
}

/// A quantum circuit definition.
#[derive(Debug)]
pub struct Circuit {
    pub qubits: usize,
    pub classical_bits: Option<usize>,
    pub gates: Vec<GateInstruction>,
    pub global_noise: Option<NoiseConfig>,
    pub readout_noise: Option<NoiseConfig>,
}

// ---------------------------------------------------------------------------
// Copies

/// A copy of a list of indices.
pub fn copy_indices(v: &Vec<usize>) -> (r: Vec<usize>)
    ensures
        r@ == v@,
{
    let mut r: Vec<usize> = Vec::new();
    let mut i: usize = 0;
    while i < v.len()
        invariant
            i <= v@.len(),
            r@ == v@.take(i as int),
        decreases v@.len() - i,
    {
        r.push(v[i]);
        assert(v@.take(i as int + 1) =~= v@.take(i as int).push(v@[i as int]));
        i = i + 1;
    }
    assert(v@.take(v@.len() as int) =~= v@);
    r
}

fn copy_opt_indices(v: &Option<Vec<usize>>) -> (r: Option<Vec<usize>>)
    ensures
        r is Some <==> v is Some,
        r is Some ==> r->0@ == v->0@,
{
    match v {
        Some(v) => Some(copy_indices(v)),
        None => None,
    }
}

fn copy_opt_text(s: &Option<String>) -> (r: Option<String>)
    ensures
        r == *s,
{
    match s {
        Some(s) => Some(s.clone()),
        None => None,
    }
}

fn copy_matrices(v: &Vec<Matrix2x2>) -> (r: Vec<Matrix2x2>)
    ensures
        r@ == v@,
{
    let mut r: Vec<Matrix2x2> = Vec::new();
    let mut i: usize = 0;
    while i < v.len()
        invariant
            i <= v@.len(),
            r@ == v@.take(i as int),
        decreases v@.len() - i,
    {
        r.push(v[i]);
        assert(v@.take(i as int + 1) =~= v@.take(i as int).push(v@[i as int]));
        i = i + 1;
    }
    assert(v@.take(v@.len() as int) =~= v@);
    r
}

// ---------------------------------------------------------------------------
// Mathematical views

/// The content of a noise channel, with texts and lists as sequences.
pub struct NoiseSpec {
    pub noise_type: Seq<char>,
    pub probability: u64,
    pub channels: Option<Seq<NoiseSpec>>,
    pub t1: Option<u64>,
    pub t2: Option<u64>,
    pub dt: Option<u64>,
    pub angle: Option<u64>,
    pub axis: Option<Seq<char>>,
    pub coupled_qubits: Option<Seq<usize>>,
    pub kraus: Option<Seq<Matrix2x2>>,
    pub checks: NoiseChecks,
}

/// The content of a gate instruction.
pub struct GateSpec {
    pub gate_type: Seq<char>,
    pub target: Option<usize>,
    pub control: Option<usize>,
    pub controls: Option<Seq<usize>>,
    pub parameter: Option<u64>,
    pub matrix: Option<Matrix2x2>,
    pub matrix_is_unitary: bool,
    pub condition: Option<ClassicalCondition>,
    pub cbit: Option<usize>,
    pub repeat: Option<usize>,
    pub noise: Option<NoiseSpec>,
}

/// The content of a circuit.
pub struct CircuitSpec {
    pub qubits: usize,
    pub classical_bits: Option<usize>,
    pub gates: Seq<GateSpec>,
    pub global_noise: Option<NoiseSpec>,
    pub readout_noise: Option<NoiseSpec>,
}

pub open spec fn opt_indices_view(v: Option<Vec<usize>>) -> Option<Seq<usize>> {
    match v {
        Some(v) => Some(v@),
        None => None,
    }
}

pub open spec fn opt_text_view(s: Option<String>) -> Option<Seq<char>> {
    match s {
        Some(s) => Some(s@),
        None => None,
    }
}

pub open spec fn noise_view(n: NoiseConfig) -> NoiseSpec
    decreases n,
{
    NoiseSpec {
        noise_type: n.noise_type@,
        probability: n.probability,
        channels: match n.channels {
            Some(v) => Some(channel_views(v@)),
            None => None,
        },
        t1: n.t1,
        t2: n.t2,
        dt: n.dt,
        angle: n.angle,
        axis: opt_text_view(n.axis),
        coupled_qubits: opt_indices_view(n.coupled_qubits),
        kraus: match n.kraus {
            Some(k) => Some(k@),
            None => None,
        },
        checks: n.checks,
    }
}

pub open spec fn channel_views(s: Seq<NoiseConfig>) -> Seq<NoiseSpec>
    decreases s,
{
    if s.len() == 0 {
        Seq::empty()
    } else {
        channel_views(s.drop_last()).push(noise_view(s.last()))
    }
}

impl View for NoiseConfig {
    type V = NoiseSpec;

    open spec fn view(&self) -> NoiseSpec {
        noise_view(*self)
    }
}

pub open spec fn opt_noise_view(n: Option<NoiseConfig>) -> Option<NoiseSpec> {
    match n {
        Some(n) => Some(n@),
        None => None,
    }
}

impl View for GateInstruction {
    type V = GateSpec;

    open spec fn view(&self) -> GateSpec {
        GateSpec {
            gate_type: self.gate_type@,
            target: self.target,
            control: self.control,
            controls: opt_indices_view(self.controls),
            parameter: self.parameter,
            matrix: self.matrix,
            matrix_is_unitary: self.matrix_is_unitary,
            condition: self.condition,
            cbit: self.cbit,
            repeat: self.repeat,
            noise: opt_noise_view(self.noise),
        }
    }
}

pub open spec fn gate_views(s: Seq<GateInstruction>) -> Seq<GateSpec> {
    s.map_values(|g: GateInstruction| g@)
}

/// `gate_views` distributes over pushes, concatenation and slices.
pub proof fn lemma_gate_views(s: Seq<GateInstruction>, t: Seq<GateInstruction>, g: GateInstruction)
    ensures
        gate_views(s).len() == s.len(),
        gate_views(s.push(g)) == gate_views(s).push(g@),
        gate_views(s + t) == gate_views(s) + gate_views(t),
        forall|a: int, b: int|
            0 <= a <= b <= s.len() ==> #[trigger] gate_views(s.subrange(a, b)) == gate_views(
                s,
            ).subrange(a, b),
        forall|i: int| 0 <= i < s.len() ==> #[trigger] gate_views(s)[i] == s[i]@,
{
    assert(gate_views(s.push(g)) =~= gate_views(s).push(g@));
    assert(gate_views(s + t) =~= gate_views(s) + gate_views(t));
    assert forall|a: int, b: int| 0 <= a <= b <= s.len() implies #[trigger] gate_views(
        s.subrange(a, b),
    ) == gate_views(s).subrange(a, b) by {
        assert(gate_views(s.subrange(a, b)) =~= gate_views(s).subrange(a, b));
    }
}

impl View for Circuit {
    type V = CircuitSpec;

    open spec fn view(&self) -> CircuitSpec {
        CircuitSpec {
            qubits: self.qubits,
            classical_bits: self.classical_bits,
            gates: gate_views(self.gates@),
            global_noise: opt_noise_view(self.global_noise),
            readout_noise: opt_noise_view(self.readout_noise),
        }
    }
}

// ---------------------------------------------------------------------------
// Copies with the same content

fn copy_opt_matrices(k: &Option<Vec<Matrix2x2>>) -> (r: Option<Vec<Matrix2x2>>)
    ensures
        r is Some <==> k is Some,
        r is Some ==> r->0@ == k->0@,
{
    match k {
        Some(k) => Some(copy_matrices(k)),
        None => None,
    }
}

proof fn lemma_channel_views_push(s: Seq<NoiseConfig>, x: NoiseConfig)
    ensures
        channel_views(s.push(x)) == channel_views(s).push(x@),
{
    assert(s.push(x).drop_last() =~= s);
}

impl Clone for NoiseConfig {
    fn clone(&self) -> (r: Self)
        ensures
            r@ == self@,
        decreases self,
    {
        let channels = match &self.channels {
            Some(v) => {
                let mut out: Vec<NoiseConfig> = Vec::new();
                let mut i: usize = 0;
                while i < v.len()
                    invariant
                        self.channels == Some(*v),
                        i <= v@.len(),
                        channel_views(out@) == channel_views(v@.take(i as int)),
                    decreases v@.len() - i,
                {
                    proof {
                        vstd::std_specs::vec::axiom_vec_index_decreases(*v, i as int);
                        assert(decreases_to!(*self => self.channels));
                        assert(decreases_to!(self.channels => self.channels->0));
                        assert(decreases_to!(*self => v[i as int]));
                    }
                    let c = v[i].clone();
                    proof {
                        lemma_channel_views_push(out@, c);
                        assert(v@.take(i as int + 1).drop_last() =~= v@.take(i as int));
                    }
                    out.push(c);
                    i = i + 1;
                }
                assert(v@.take(v@.len() as int) =~= v@);
                Some(out)
            },
            None => None,
        };
        NoiseConfig {
            noise_type: self.noise_type.clone(),
            probability: self.probability,
            channels,
            t1: self.t1,
            t2: self.t2,
            dt: self.dt,
            angle: self.angle,
            axis: copy_opt_text(&self.axis),
            coupled_qubits: copy_opt_indices(&self.coupled_qubits),
            kraus: copy_opt_matrices(&self.kraus),
            checks: self.checks,
        }
    }
}

/// A copy of an optional noise channel.
pub fn copy_opt_noise(n: &Option<NoiseConfig>) -> (r: Option<NoiseConfig>)
    ensures
        opt_noise_view(r) == opt_noise_view(*n),
{
    match n {
        Some(n) => Some(n.clone()),
        None => None,
    }
}

impl Clone for GateInstruction {
    fn clone(&self) -> (r: Self)
        ensures
            r@ == self@,
    {
        GateInstruction {
            gate_type: self.gate_type.clone(),
            target: self.target,
            control: self.control,
            controls: copy_opt_indices(&self.controls),
            parameter: self.parameter,
            matrix: self.matrix,
            matrix_is_unitary: self.matrix_is_unitary,
            condition: self.condition,
            cbit: self.cbit,
            repeat: self.repeat,
            noise: copy_opt_noise(&self.noise),
        }
    }
}

/// A copy of a list of gate instructions.
pub fn copy_gates(v: &Vec<GateInstruction>) -> (r: Vec<GateInstruction>)
    ensures
        gate_views(r@) == gate_views(v@),
{
    let mut r: Vec<GateInstruction> = Vec::new();
    let mut i: usize = 0;
    while i < v.len()
        invariant
            i <= v@.len(),
            gate_views(r@) == gate_views(v@.take(i as int)),
        decreases v@.len() - i,
    {
        let g = v[i].clone();
        proof {
            let a = gate_views(r@.push(g));
            let b = gate_views(v@.take(i as int + 1));
            assert(gate_views(r@).len() == i);
            assert forall|k: int| 0 <= k < a.len() implies a[k] == b[k] by {
                if k < i {
                    assert(a[k] == gate_views(r@)[k]);
                    assert(gate_views(v@.take(i as int))[k] == b[k]);
                }
            }
            assert(a =~= b);
        }
        r.push(g);
        i = i + 1;
    }
    assert(v@.take(v@.len() as int) =~= v@);
    r
}

impl Clone for Circuit {
    fn clone(&self) -> (r: Self)
        ensures
            r@ == self@,
    {
        Circuit {
            qubits: self.qubits,
            classical_bits: self.classical_bits,
            gates: copy_gates(&self.gates),
            global_noise: copy_opt_noise(&self.global_noise),
            readout_noise: copy_opt_noise(&self.readout_noise),
        }
    }
}

// ---------------------------------------------------------------------------
// Qubits touched by a gate

/// `acc` followed by those elements of `xs` not seen before, in their order.
pub open spec fn append_new(acc: Seq<usize>, xs: Seq<usize>) -> Seq<usize>
    decreases xs.len(),
{
    if xs.len() == 0 {
        acc
    } else {
        append_new(
            if acc.contains(xs[0]) {
                acc
            } else {
                acc.push(xs[0])
            },
            xs.drop_first(),
        )
    }
}

/// `append_new` keeps a list free of repeats and holds exactly the elements of both lists.
pub proof fn lemma_append_new(acc: Seq<usize>, xs: Seq<usize>)
    ensures
        acc.no_duplicates() ==> append_new(acc, xs).no_duplicates(),
        forall|x: usize| #[trigger]
            append_new(acc, xs).contains(x) <==> (acc.contains(x) || xs.contains(x)),
    decreases xs.len(),
{
    broadcast use vstd::seq_lib::group_seq_properties;

    if xs.len() > 0 {
        let next = if acc.contains(xs[0]) {
            acc
        } else {
            acc.push(xs[0])
        };
        lemma_append_new(next, xs.drop_first());
        assert forall|x: usize| next.contains(x) <==> (acc.contains(x) || x == xs[0]) by {
        }
        assert forall|x: usize| xs.contains(x) <==> (x == xs[0] || xs.drop_first().contains(x)) by {
            if xs.contains(x) && x != xs[0] {
                let k = choose|k: int| 0 <= k < xs.len() && xs[k] == x;
                assert(xs.drop_first()[k - 1] == x);
            }
            if xs.drop_first().contains(x) {
                let k = choose|k: int| 0 <= k < xs.len() - 1 && xs.drop_first()[k] == x;
                assert(xs[k + 1] == x);
            }
            if x == xs[0] {
                assert(xs[0] == x);
            }
        }
        if acc.no_duplicates() && !acc.contains(xs[0]) {
            assert(next.no_duplicates());
        }
        assert(append_new(acc, xs) == append_new(next, xs.drop_first()));
        assert forall|x: usize| #[trigger]
            append_new(acc, xs).contains(x) <==> (acc.contains(x) || xs.contains(x)) by {
            assert(append_new(next, xs.drop_first()).contains(x) <==> (next.contains(x)
                || xs.drop_first().contains(x)));
        }
    }
}

impl GateSpec {
    /// Control qubits: `control` first, then the `controls` list without repeats.
    pub open spec fn resolved_controls(self) -> Seq<usize> {
        let first = match self.control {
            Some(c) => seq![c],
            None => Seq::<usize>::empty(),
        };
        match self.controls {
            Some(extra) => append_new(first, extra),
            None => first,
        }
    }

    /// Control qubits followed by the target, each once.
    pub open spec fn involved_qubits(self) -> Seq<usize> {
        let c = self.resolved_controls();
        match self.target {
            Some(t) => if c.contains(t) {
                c
            } else {
                c.push(t)
            },
            None => c,
        }
    }
}

/// Whether `x` occurs in `v`.
pub fn contains_index(v: &Vec<usize>, x: usize) -> (r: bool)
    ensures
        r == v@.contains(x),
{
    let mut i: usize = 0;
    while i < v.len()
        invariant
            i <= v@.len(),
            forall|k: int| 0 <= k < i ==> v@[k] != x,
        decreases v@.len() - i,
    {
        if v[i] == x {
            assert(v@[i as int] == x);
            return true;
        }
        i = i + 1;
    }
    false
}

impl GateInstruction {
    /// Resolve all control qubits while preserving backward compatibility with `control`.
    pub fn resolved_controls(&self) -> (r: Vec<usize>)
        ensures
            r@ == self@.resolved_controls(),
            r@.no_duplicates(),
            forall|x: usize| #[trigger]
                r@.contains(x) <==> (self.control == Some(x) || (self.controls is Some
                    && self.controls->0@.contains(x))),
    {
        let mut controls: Vec<usize> = Vec::new();
        if let Some(control) = self.control {
            controls.push(control);
        }
        let ghost first = controls@;
        assert(first =~= match self.control {
            Some(c) => seq![c],
            None => Seq::<usize>::empty(),
        });
        proof {
            lemma_append_new(first, Seq::empty());
            assert forall|x: usize| first.contains(x) <==> self.control == Some(x) by {
                if first.contains(x) {
                    assert(first[0] == x);
                }
                if self.control == Some(x) {
                    assert(first[0] == x);
                }
            }
        }
        if let Some(extra) = &self.controls {
            let mut i: usize = 0;
            assert(extra@.skip(0) =~= extra@);
            while i < extra.len()
                invariant
                    self.controls == Some(*extra),
                    i <= extra@.len(),
                    append_new(controls@, extra@.skip(i as int)) == append_new(first, extra@),
                decreases extra@.len() - i,
            {
                let c = extra[i];
                let present = contains_index(&controls, c);
                assert(extra@.skip(i as int).drop_first() =~= extra@.skip(i as int + 1));
                if !present {
                    controls.push(c);
                }
                i = i + 1;
            }
            assert(extra@.skip(0) =~= extra@);
            proof {
                lemma_append_new(first, extra@);
            }
        }
        proof {
            lemma_append_new(first, Seq::empty());
        }
        controls
    }

    /// Return all qubits touched by this gate.
    pub fn involved_qubits(&self) -> (r: Vec<usize>)
        ensures
            r@ == self@.involved_qubits(),
            r@.no_duplicates(),
    {
        let mut qubits = self.resolved_controls();
        if let Some(target) = self.target {
            if !contains_index(&qubits, target) {
                qubits.push(target);
            }
        }
        qubits
    }
}

// ---------------------------------------------------------------------------
// Validation rules

/// The first of two findings, checked in order.
pub open spec fn first_of(a: Option<Fault>, b: Option<Fault>) -> Option<Fault> {
    if a is Some {
        a
    } else {
        b
    }
}

/// A qubit index outside `0..n`.
pub open spec fn qubit_fault(q: usize, n: usize) -> Option<Fault> {
    if q >= n {
        Some(Fault::QubitIndex { index: q, max: n })
    } else {
        None
    }
}

/// The first index in `qs` outside `0..n`.
pub open spec fn qubits_fault(n: usize, qs: Seq<usize>) -> Option<Fault>
    decreases qs.len(),
{
    if qs.len() == 0 {
        None
    } else {
        first_of(qubit_fault(qs[0], n), qubits_fault(n, qs.drop_first()))
    }
}

/// The first control outside `0..n` or equal to the target.
pub open spec fn control_list_fault(n: usize, controls: Seq<usize>, target: usize) -> Option<Fault>
    decreases controls.len(),
{
    if controls.len() == 0 {
        None
    } else {
        first_of(
            qubit_fault(controls[0], n),
            if controls[0] == target {
                Some(Fault::CircuitValidation)
            } else {
                control_list_fault(n, controls.drop_first(), target)
            },
        )
    }
}

/// Controls of `g` checked against its target, then the `controls` list checked for repeats.
pub open spec fn controls_fault(n: usize, g: GateSpec, target: usize) -> Option<Fault> {
    first_of(
        control_list_fault(n, g.resolved_controls(), target),
        match g.controls {
            Some(extra) => if extra.no_duplicates() {
                None
            } else {
                Some(Fault::CircuitValidation)
            },
            None => None,
        },
    )
}

/// A missing or out-of-range target.
pub open spec fn target_fault(n: usize, g: GateSpec) -> Option<Fault> {
    match g.target {
        Some(t) => qubit_fault(t, n),
        None => Some(Fault::CircuitValidation),
    }
}

/// A wrong number of controls.
pub open spec fn count_fault(g: GateSpec, expected: nat) -> Option<Fault> {
    if g.resolved_controls().len() != expected {
        Some(Fault::CircuitValidation)
    } else {
        None
    }
}

/// A missing angle.
pub open spec fn parameter_fault(g: GateSpec) -> Option<Fault> {
    if g.parameter is None {
        Some(Fault::CircuitValidation)
    } else {
        None
    }
}

impl CircuitSpec {
    /// Number of classical bits: as declared, else one per qubit.
    pub open spec fn classical_bits_count(self) -> usize {
        match self.classical_bits {
            Some(b) => b,
            None => self.qubits,
        }
    }

    /// A classical bit index outside the register.
    pub open spec fn cbit_fault(self, cbit: usize) -> Option<Fault> {
        if cbit >= self.classical_bits_count() {
            Some(Fault::CircuitValidation)
        } else {
            None
        }
    }
}

impl GateSpec {
    /// Kind of gate named by this instruction.
    pub open spec fn kind(self) -> GateKind {
        gate_kind_named(upper_text(self.gate_type))
    }
}

impl NoiseSpec {
    /// The channel this configuration names.
    pub open spec fn kind(self) -> NoiseKind {
        noise_kind_named(upper_text(self.noise_type))
    }
}

/// Whether a noise configuration is, or composes, a readout error.
pub open spec fn contains_readout(x: NoiseSpec) -> bool
    decreases x,
{
    match x.kind() {
        NoiseKind::ReadoutError => true,
        NoiseKind::Composite => match x.channels {
            Some(ch) => any_contains_readout(ch),
            None => false,
        },
        _ => false,
    }
}

/// Whether one of the channels is, or composes, a readout error.
pub open spec fn any_contains_readout(ch: Seq<NoiseSpec>) -> bool
    decreases ch,
{
    if ch.len() == 0 {
        false
    } else {
        contains_readout(ch[0]) || any_contains_readout(ch.drop_first())
    }
}

/// The first rule a noise configuration breaks, on a circuit of `n` qubits.
pub open spec fn noise_fault(n: usize, x: NoiseSpec) -> Option<Fault>
    decreases x, 1int,
{
    noise_fault_named(n, upper_text(x.noise_type), x)
}

/// The first rule noise configuration `x`, whose upper-cased name is `u`,
/// breaks on a circuit of `n` qubits.
pub open spec fn noise_fault_named(n: usize, u: Seq<char>, x: NoiseSpec) -> Option<Fault>
    decreases x, 0int,
{
    if !x.checks.probability_in_range {
        Some(Fault::NoiseConfig)
    } else {
        match noise_kind_named(u) {
            NoiseKind::T1T2Relaxation => if x.t1 is None || x.t2 is None || x.dt is None
                || !x.checks.relaxation_times_valid {
                Some(Fault::NoiseConfig)
            } else {
                None
            },
            NoiseKind::CoherentOverRotation => if x.angle is None {
                Some(Fault::NoiseConfig)
            } else {
                match x.axis {
                    Some(a) => if axis_named(upper_text(a)) is None {
                        Some(Fault::NoiseConfig)
                    } else {
                        None
                    },
                    None => None,
                }
            },
            NoiseKind::Crosstalk => match x.coupled_qubits {
                Some(q) => if q.len() == 0 {
                    Some(Fault::NoiseConfig)
                } else {
                    qubits_fault(n, q)
                },
                None => Some(Fault::NoiseConfig),
            },
            NoiseKind::Kraus => match x.kraus {
                Some(k) => if k.len() == 0 || !x.checks.kraus_complete {
                    Some(Fault::NoiseConfig)
                } else {
                    None
                },
                None => Some(Fault::NoiseConfig),
            },
            NoiseKind::Composite => match x.channels {
                Some(ch) => if ch.len() == 0 {
                    Some(Fault::NoiseConfig)
                } else {
                    channels_fault(n, ch)
                },
                None => Some(Fault::NoiseConfig),
            },
            NoiseKind::Unknown => Some(Fault::NoiseConfig),
            _ => None,
        }
    }
}

/// The first rule one of the channels breaks, in order.
pub open spec fn channels_fault(n: usize, ch: Seq<NoiseSpec>) -> Option<Fault>
    decreases ch, 2int,
{
    if ch.len() == 0 {
        None
    } else {
        first_of(noise_fault(n, ch[0]), channels_fault(n, ch.drop_first()))
    }
}

/// The first rule an optional noise configuration breaks.
pub open spec fn opt_noise_fault(n: usize, x: Option<NoiseSpec>) -> Option<Fault> {
    match x {
        Some(x) => noise_fault(n, x),
        None => None,
    }
}

/// The first rule gate `g`, whose upper-cased name is `u`, breaks by the kind
/// of gate it names.
pub open spec fn gate_kind_fault_named(c: CircuitSpec, u: Seq<char>, g: GateSpec) -> Option<Fault> {
    let n = c.qubits;
    let t = g.target->0;
    let controls = g.resolved_controls();
    match gate_kind_named(u) {
        GateKind::X | GateKind::Y | GateKind::Z | GateKind::H | GateKind::S | GateKind::T =>
            first_of(target_fault(n, g), controls_fault(n, g, t)),
        GateKind::Rx | GateKind::Ry | GateKind::Rz => first_of(
            parameter_fault(g),
            first_of(target_fault(n, g), controls_fault(n, g, t)),
        ),
        GateKind::Cnot | GateKind::Cz => first_of(
            target_fault(n, g),
            first_of(count_fault(g, 1), controls_fault(n, g, t)),
        ),
        GateKind::Cp => first_of(
            parameter_fault(g),
            first_of(target_fault(n, g), first_of(count_fault(g, 1), controls_fault(n, g, t))),
        ),
        GateKind::Ccx => first_of(
            target_fault(n, g),
            first_of(count_fault(g, 2), controls_fault(n, g, t)),
        ),
        GateKind::Swap => if g.controls is Some && g.controls->0.len() > 0 {
            Some(Fault::CircuitValidation)
        } else if g.control is None || g.target is None {
            Some(Fault::CircuitValidation)
        } else {
            let q1 = g.control->0;
            first_of(
                qubit_fault(q1, n),
                first_of(
                    qubit_fault(t, n),
                    if q1 == t {
                        Some(Fault::CircuitValidation)
                    } else {
                        None
                    },
                ),
            )
        },
        GateKind::Measure | GateKind::Reset => if controls.len() > 0 {
            Some(Fault::CircuitValidation)
        } else {
            first_of(
                target_fault(n, g),
                if gate_kind_named(u) == GateKind::Measure {
                    c.cbit_fault(
                        match g.cbit {
                            Some(b) => b,
                            None => t,
                        },
                    )
                } else {
                    None
                },
            )
        },
        GateKind::Barrier => qubits_fault(n, g.involved_qubits()),
        GateKind::Unitary => first_of(
            target_fault(n, g),
            first_of(
                controls_fault(n, g, t),
                if g.matrix is None || !g.matrix_is_unitary {
                    Some(Fault::CircuitValidation)
                } else {
                    None
                },
            ),
        ),
        GateKind::Unknown => Some(Fault::CircuitValidation),
    }
}

/// The first rule gate `g`, whose upper-cased name is `u`, breaks within circuit `c`.
pub open spec fn gate_fault_named(c: CircuitSpec, u: Seq<char>, g: GateSpec) -> Option<Fault> {
    if g.repeat == Some(0usize) {
        Some(Fault::CircuitValidation)
    } else if g.condition is Some && g.condition->0.register >= c.classical_bits_count() {
        Some(Fault::CircuitValidation)
    } else {
        first_of(
            gate_kind_fault_named(c, u, g),
            first_of(opt_noise_fault(c.qubits, g.noise), opt_noise_fault(c.qubits, c.global_noise)),
        )
    }
}

/// The first rule a gate breaks, by the kind of gate it names.
pub open spec fn gate_kind_fault(c: CircuitSpec, g: GateSpec) -> Option<Fault> {
    gate_kind_fault_named(c, upper_text(g.gate_type), g)
}

/// The first rule a gate breaks within circuit `c`.
pub open spec fn gate_fault(c: CircuitSpec, g: GateSpec) -> Option<Fault> {
    gate_fault_named(c, upper_text(g.gate_type), g)
}

/// The first rule one of the gates breaks, in order.
pub open spec fn gates_fault(c: CircuitSpec, gs: Seq<GateSpec>) -> Option<Fault>
    decreases gs.len(),
{
    if gs.len() == 0 {
        None
    } else {
        first_of(gate_fault(c, gs[0]), gates_fault(c, gs.drop_first()))
    }
}

/// The first rule the readout noise breaks.
pub open spec fn readout_fault(c: CircuitSpec) -> Option<Fault> {
    match c.readout_noise {
        Some(r) => first_of(
            noise_fault(c.qubits, r),
            if contains_readout(r) {
                None
            } else {
                Some(Fault::NoiseConfig)
            },
        ),
        None => None,
    }
}

/// The first rule a circuit breaks, or `None` for a valid circuit.
pub open spec fn circuit_fault(c: CircuitSpec) -> Option<Fault> {
    if c.qubits == 0 || c.qubits > 30 {
        Some(Fault::CircuitValidation)
    } else {
        first_of(
            readout_fault(c),
            first_of(
                if c.classical_bits == Some(0usize) {
                    Some(Fault::CircuitValidation)
                } else {
                    None
                },
                first_of(gates_fault(c, c.gates), opt_noise_fault(c.qubits, c.global_noise)),
            ),
        )
    }
}

// ---------------------------------------------------------------------------
// What validation guarantees

proof fn lemma_control_list_ok(n: usize, cs: Seq<usize>, t: usize)
    requires
        control_list_fault(n, cs, t) is None,
    ensures
        forall|k: int| 0 <= k < cs.len() ==> #[trigger] cs[k] < n && cs[k] != t,
    decreases cs.len(),
{
    if cs.len() > 0 {
        lemma_control_list_ok(n, cs.drop_first(), t);
        assert forall|k: int| 0 <= k < cs.len() implies #[trigger] cs[k] < n && cs[k] != t by {
            if k > 0 {
                assert(cs.drop_first()[k - 1] == cs[k]);
            }
        }
    }
}

proof fn lemma_qubits_ok(n: usize, qs: Seq<usize>)
    requires
        qubits_fault(n, qs) is None,
    ensures
        forall|k: int| 0 <= k < qs.len() ==> #[trigger] qs[k] < n,
    decreases qs.len(),
{
    if qs.len() > 0 {
        lemma_qubits_ok(n, qs.drop_first());
        assert forall|k: int| 0 <= k < qs.len() implies #[trigger] qs[k] < n by {
            if k > 0 {
                assert(qs.drop_first()[k - 1] == qs[k]);
            }
        }
    }
}

proof fn lemma_involved_contains(g: GateSpec)
    ensures
        forall|x: usize| #[trigger]
            g.involved_qubits().contains(x) <==> (g.resolved_controls().contains(x) || g.target
                == Some(x)),
{
    let cs = g.resolved_controls();
    if let Some(t) = g.target {
        if !cs.contains(t) {
            assert forall|x: usize| #[trigger] cs.push(t).contains(x) <==> (cs.contains(x) || x == t) by {
                if cs.push(t).contains(x) {
                    let j = choose|j: int| 0 <= j < cs.push(t).len() && cs.push(t)[j] == x;
                    if j < cs.len() {
                        assert(cs[j] == x);
                    }
                }
                if cs.contains(x) {
                    let j = choose|j: int| 0 <= j < cs.len() && cs[j] == x;
                    assert(cs.push(t)[j] == x);
                }
                if x == t {
                    assert(cs.push(t)[cs.len() as int] == x);
                }
            }
        }
    }
}

proof fn lemma_resolved_contains(g: GateSpec)
    ensures
        forall|x: usize| #[trigger]
            g.resolved_controls().contains(x) <==> (g.control == Some(x) || (g.controls is Some
                && g.controls->0.contains(x))),
{
    let first = match g.control {
        Some(c) => seq![c],
        None => Seq::<usize>::empty(),
    };
    if let Some(extra) = g.controls {
        lemma_append_new(first, extra);
    }
    assert forall|x: usize| first.contains(x) <==> g.control == Some(x) by {
        if first.contains(x) {
            let j = choose|j: int| 0 <= j < first.len() && first[j] == x;
        }
        if g.control == Some(x) {
            assert(first[0] == x);
        }
    }
}

/// A gate that passes validation touches only the circuit's qubits, and,
/// unless it is a barrier, has a target that none of its controls equals.
pub proof fn lemma_valid_gate_qubits(c: CircuitSpec, u: Seq<char>, g: GateSpec)
    requires
        gate_fault_named(c, u, g) is None,
    ensures
        forall|k: int|
            0 <= k < g.involved_qubits().len() ==> #[trigger] g.involved_qubits()[k] < c.qubits,
        gate_kind_named(u) != GateKind::Barrier ==> g.target is Some && forall|k: int|
            0 <= k < g.resolved_controls().len() ==> #[trigger] g.resolved_controls()[k]
                != g.target->0,
{
    let n = c.qubits;
    let cs = g.resolved_controls();
    let iq = g.involved_qubits();
    let t = g.target->0;
    lemma_involved_contains(g);
    lemma_resolved_contains(g);
    let k = gate_kind_named(u);
    assert(gate_kind_fault_named(c, u, g) is None);
    if k == GateKind::Barrier {
        lemma_qubits_ok(n, iq);
    } else if k == GateKind::Swap {
        let q1 = g.control->0;
        assert(g.control is Some && g.target is Some && q1 < n && t < n && q1 != t);
        assert forall|x: usize| cs.contains(x) implies x == q1 by {
            if g.controls is Some {
                assert(g.controls->0.len() == 0);
                assert(!g.controls->0.contains(x));
            }
        }
        assert forall|j: int| 0 <= j < cs.len() implies #[trigger] cs[j] != t by {
            assert(cs.contains(cs[j]));
        }
        assert forall|j: int| 0 <= j < iq.len() implies #[trigger] iq[j] < n by {
            assert(iq.contains(iq[j]));
            if cs.contains(iq[j]) {
            }
        }
    } else if k == GateKind::Measure || k == GateKind::Reset {
        assert(cs.len() == 0);
        assert(target_fault(n, g) is None);
        assert forall|j: int| 0 <= j < iq.len() implies #[trigger] iq[j] < n by {
            assert(iq.contains(iq[j]));
            if cs.contains(iq[j]) {
                let m = choose|m: int| 0 <= m < cs.len() && cs[m] == iq[j];
            }
        }
    } else {
        assert(k != GateKind::Unknown);
        assert(target_fault(n, g) is None);
        assert(controls_fault(n, g, t) is None);
        assert(control_list_fault(n, cs, t) is None);
        lemma_control_list_ok(n, cs, t);
        assert forall|j: int| 0 <= j < iq.len() implies #[trigger] iq[j] < n by {
            assert(iq.contains(iq[j]));
            if cs.contains(iq[j]) {
                let m = choose|m: int| 0 <= m < cs.len() && cs[m] == iq[j];
                assert(cs[m] < n);
            }
        }
    }
}

/// In a circuit that passes validation, every gate touches only the circuit's
/// qubits, and every gate but a barrier has a target that none of its controls
/// equals.
pub proof fn lemma_valid_circuit_qubits(c: CircuitSpec)
    requires
        circuit_fault(c) is None,
    ensures
        forall|i: int, k: int|
            0 <= i < c.gates.len() && 0 <= k < c.gates[i].involved_qubits().len()
                ==> #[trigger] c.gates[i].involved_qubits()[k] < c.qubits,
        forall|i: int, k: int|
            0 <= i < c.gates.len() && c.gates[i].kind() != GateKind::Barrier && 0 <= k
                < c.gates[i].resolved_controls().len() ==> c.gates[i].target is Some
                && #[trigger] c.gates[i].resolved_controls()[k] != c.gates[i].target->0,
{
    crate::optimizer::lemma_gates_fault_none(c, c.gates);
    assert forall|i: int| 0 <= i < c.gates.len() implies {
        &&& forall|k: int|
            0 <= k < c.gates[i].involved_qubits().len() ==> #[trigger] c.gates[i].involved_qubits()[k]
                < c.qubits
        &&& c.gates[i].kind() != GateKind::Barrier ==> c.gates[i].target is Some && forall|k: int|
            0 <= k < c.gates[i].resolved_controls().len() ==> #[trigger] c.gates[i].resolved_controls()[k]
                != c.gates[i].target->0
    } by {
        assert(gate_fault(c, c.gates[i]) is None);
        lemma_valid_gate_qubits(c, upper_text(c.gates[i].gate_type), c.gates[i]);
    }
}

// ---------------------------------------------------------------------------
// Messages of the rules

/// "Gate {u} at position {idx}" followed by `tail`.
pub open spec fn gate_text(u: Seq<char>, idx: usize, tail: Seq<char>) -> Seq<char> {
    "Gate "@ + u + " at position "@ + decimal(idx) + tail
}

/// The highest classical bit of `c`, as messages report it.
pub open spec fn max_cbit(c: CircuitSpec) -> usize {
    if c.classical_bits_count() == 0 {
        0
    } else {
        (c.classical_bits_count() - 1) as usize
    }
}

/// Message for a classical bit outside the register.
pub open spec fn cbit_text(c: CircuitSpec, u: Seq<char>, idx: usize, cbit: usize) -> Seq<char> {
    gate_text(
        u,
        idx,
        " references invalid classical bit "@ + decimal(cbit) + " (max "@ + decimal(max_cbit(c))
            + ")"@,
    )
}

/// Message of `noise_fault`; empty where the fault is a qubit index.
pub open spec fn noise_message(n: usize, x: NoiseSpec) -> Seq<char>
    decreases x, 1int,
{
    noise_message_named(n, upper_text(x.noise_type), x)
}

/// Message of `noise_fault_named`.
pub open spec fn noise_message_named(n: usize, u: Seq<char>, x: NoiseSpec) -> Seq<char>
    decreases x, 0int,
{
    if !x.checks.probability_in_range {
        "Noise probability must be in [0, 1]"@
    } else {
        match noise_kind_named(u) {
            NoiseKind::T1T2Relaxation => if x.t1 is None {
                "T1_T2_RELAXATION requires t1"@
            } else if x.t2 is None {
                "T1_T2_RELAXATION requires t2"@
            } else if x.dt is None {
                "T1_T2_RELAXATION requires dt"@
            } else {
                "T1_T2_RELAXATION requires t1,t2 > 0 and dt >= 0"@
            },
            NoiseKind::CoherentOverRotation => if x.angle is None {
                "COHERENT_OVER_ROTATION requires angle"@
            } else {
                "Invalid COHERENT_OVER_ROTATION axis: "@ + upper_text(x.axis->0)
            },
            NoiseKind::Crosstalk => match x.coupled_qubits {
                Some(q) => if q.len() == 0 {
                    "CROSSTALK coupled_qubits cannot be empty"@
                } else {
                    Seq::empty()
                },
                None => "CROSSTALK requires coupled_qubits"@,
            },
            NoiseKind::Kraus => match x.kraus {
                Some(k) => if k.len() == 0 {
                    "KRAUS requires at least one operator"@
                } else {
                    "KRAUS operators violate completeness relation"@
                },
                None => "KRAUS requires kraus operators"@,
            },
            NoiseKind::Composite => match x.channels {
                Some(ch) => if ch.len() == 0 {
                    "COMPOSITE channels cannot be empty"@
                } else {
                    channels_message(n, ch)
                },
                None => "COMPOSITE requires channels"@,
            },
            NoiseKind::Unknown => "Unknown noise type: "@ + u,
            _ => Seq::empty(),
        }
    }
}

/// Message of `channels_fault`.
pub open spec fn channels_message(n: usize, ch: Seq<NoiseSpec>) -> Seq<char>
    decreases ch, 2int,
{
    if ch.len() == 0 {
        Seq::empty()
    } else if noise_fault(n, ch[0]) is Some {
        noise_message(n, ch[0])
    } else {
        channels_message(n, ch.drop_first())
    }
}

/// Message of `target_fault`.
pub open spec fn target_message(u: Seq<char>, idx: usize, g: GateSpec) -> Seq<char> {
    if g.target is None {
        gate_text(u, idx, " requires 'target'"@)
    } else {
        Seq::empty()
    }
}

/// Message of `control_list_fault`.
pub open spec fn control_list_message(
    n: usize,
    cs: Seq<usize>,
    target: usize,
    u: Seq<char>,
    idx: usize,
) -> Seq<char>
    decreases cs.len(),
{
    if cs.len() == 0 || cs[0] >= n {
        Seq::empty()
    } else if cs[0] == target {
        gate_text(u, idx, ": control and target must be different"@)
    } else {
        control_list_message(n, cs.drop_first(), target, u, idx)
    }
}

/// Message of `controls_fault`.
pub open spec fn controls_message(n: usize, g: GateSpec, target: usize, u: Seq<char>, idx: usize) -> Seq<
    char,
> {
    if control_list_fault(n, g.resolved_controls(), target) is Some {
        control_list_message(n, g.resolved_controls(), target, u, idx)
    } else {
        gate_text(u, idx, " has duplicate controls"@)
    }
}

/// Message of `count_fault`.
pub open spec fn count_message(u: Seq<char>, idx: usize, g: GateSpec, expected: usize) -> Seq<char> {
    gate_text(
        u,
        idx,
        " requires exactly "@ + decimal(expected) + " control qubit(s), got "@ + decimal(
            g.resolved_controls().len() as usize,
        ),
    )
}

/// Message of `gate_kind_fault_named`.
pub open spec fn gate_kind_message(c: CircuitSpec, u: Seq<char>, g: GateSpec, idx: usize) -> Seq<
    char,
> {
    let n = c.qubits;
    let t = g.target->0;
    let tm = target_message(u, idx, g);
    let cm = controls_message(n, g, t, u, idx);
    let pm = gate_text(u, idx, " requires 'parameter'"@);
    let tf = target_fault(n, g) is Some;
    match gate_kind_named(u) {
        GateKind::X | GateKind::Y | GateKind::Z | GateKind::H | GateKind::S | GateKind::T => if tf {
            tm
        } else {
            cm
        },
        GateKind::Rx | GateKind::Ry | GateKind::Rz => if parameter_fault(g) is Some {
            pm
        } else if tf {
            tm
        } else {
            cm
        },
        GateKind::Cnot | GateKind::Cz => if tf {
            tm
        } else if count_fault(g, 1) is Some {
            count_message(u, idx, g, 1)
        } else {
            cm
        },
        GateKind::Cp => if parameter_fault(g) is Some {
            pm
        } else if tf {
            tm
        } else if count_fault(g, 1) is Some {
            count_message(u, idx, g, 1)
        } else {
            cm
        },
        GateKind::Ccx => if tf {
            tm
        } else if count_fault(g, 2) is Some {
            count_message(u, idx, g, 2)
        } else {
            cm
        },
        GateKind::Swap => if g.controls is Some && g.controls->0.len() > 0 {
            gate_text(u, idx, " does not support 'controls' list"@)
        } else if g.control is None || g.target is None {
            gate_text(u, idx, " requires 'control' and 'target'"@)
        } else if g.control->0 >= n || t >= n {
            Seq::empty()
        } else {
            gate_text(u, idx, ": qubits must be different"@)
        },
        GateKind::Measure | GateKind::Reset => if g.resolved_controls().len() > 0 {
            gate_text(u, idx, " does not support controls"@)
        } else if tf {
            tm
        } else {
            cbit_text(
                c,
                u,
                idx,
                match g.cbit {
                    Some(b) => b,
                    None => t,
                },
            )
        },
        GateKind::Barrier => Seq::empty(),
        GateKind::Unitary => if tf {
            tm
        } else if controls_fault(n, g, t) is Some {
            cm
        } else if g.matrix is None {
            gate_text(u, idx, " requires 'matrix' as 2x2 complex entries"@)
        } else {
            gate_text(u, idx, " has non-unitary matrix"@)
        },
        GateKind::Unknown => "Unknown gate type: "@ + u,
    }
}

/// Message of `gate_fault_named`, with `idx` the position of `g` in its circuit.
pub open spec fn gate_message_named(c: CircuitSpec, u: Seq<char>, g: GateSpec, idx: usize) -> Seq<
    char,
> {
    if g.repeat == Some(0usize) {
        gate_text(u, idx, " has invalid repeat=0"@)
    } else if g.condition is Some && g.condition->0.register >= c.classical_bits_count() {
        cbit_text(c, u, idx, g.condition->0.register)
    } else if gate_kind_fault_named(c, u, g) is Some {
        gate_kind_message(c, u, g, idx)
    } else if opt_noise_fault(c.qubits, g.noise) is Some {
        noise_message(c.qubits, g.noise->0)
    } else {
        noise_message(c.qubits, c.global_noise->0)
    }
}

/// Message of `gates_fault`, for gates numbered from `first`.
pub open spec fn gates_message(c: CircuitSpec, gs: Seq<GateSpec>, first: usize) -> Seq<char>
    decreases gs.len(),
{
    if gs.len() == 0 {
        Seq::empty()
    } else if gate_fault(c, gs[0]) is Some {
        gate_message_named(c, upper_text(gs[0].gate_type), gs[0], first)
    } else {
        gates_message(c, gs.drop_first(), (first + 1) as usize)
    }
}

/// Message of `circuit_fault`; empty where the fault is a qubit index.
pub open spec fn circuit_message(c: CircuitSpec) -> Seq<char> {
    if c.qubits == 0 || c.qubits > 30 {
        "Invalid qubit count: "@ + decimal(c.qubits) + ". Must be between 1 and 30."@
    } else if readout_fault(c) is Some {
        if noise_fault(c.qubits, c.readout_noise->0) is Some {
            noise_message(c.qubits, c.readout_noise->0)
        } else {
            "readout_noise must be READOUT_ERROR or COMPOSITE containing READOUT_ERROR"@
        }
    } else if c.classical_bits == Some(0usize) {
        "classical_bits must be > 0 when provided"@
    } else if gates_fault(c, c.gates) is Some {
        gates_message(c, c.gates, 0)
    } else {
        noise_message(c.qubits, c.global_noise->0)
    }
}

// ---------------------------------------------------------------------------
// Validation

/// "Gate {gate_type} at position {idx}{tail}"
fn gate_message(gate_type: &str, idx: usize, tail: &str) -> (r: String)
    ensures
        r@ == "Gate "@ + gate_type@ + " at position "@ + decimal(idx) + tail@,
{
    let pos = decimal_text(idx);
    let ps: &str = pos.as_str();
    let r = join(&["Gate ", gate_type, " at position ", ps, tail]);
    proof {
        let parts = seq!["Gate ", gate_type, " at position ", ps, tail];
        assert(joined(parts) =~= "Gate "@ + gate_type@ + " at position "@ + decimal(idx) + tail@) by {
            reveal_with_fuel(joined, 6);
        }
    }
    r
}

fn circuit_error(reason: String) -> (e: Error)
    ensures
        e == (Error::CircuitValidationError { reason }),
        fault_of(e) == Fault::CircuitValidation,
{
    Error::CircuitValidationError { reason }
}

fn noise_error(reason: &str) -> (e: Error)
    ensures
        fault_of(e) == Fault::NoiseConfig,
        message_of(e) == reason@,
{
    proof {
        lemma_joined_small(reason, "", "");
    }
    let parts = [reason];
    assert(parts@ =~= seq![reason]);
    Error::InvalidNoiseConfig { reason: join(&parts) }
}

fn noise_error2(a: &str, b: &str) -> (e: Error)
    ensures
        fault_of(e) == Fault::NoiseConfig,
        message_of(e) == a@ + b@,
{
    proof {
        lemma_joined_small(a, b, "");
    }
    Error::InvalidNoiseConfig { reason: join(&[a, b]) }
}

/// Whether a list of indices holds some index twice.
pub fn has_repeats(v: &Vec<usize>) -> (r: bool)
    ensures
        r == !v@.no_duplicates(),
{
    let mut i: usize = 0;
    while i < v.len()
        invariant
            i <= v@.len(),
            forall|a: int, b: int| 0 <= a < b < v@.len() && a < i ==> v@[a] != v@[b],
        decreases v@.len() - i,
    {
        let mut j: usize = i + 1;
        while j < v.len()
            invariant
                i < v@.len(),
                i + 1 <= j <= v@.len(),
                forall|a: int, b: int| 0 <= a < b < v@.len() && a < i ==> v@[a] != v@[b],
                forall|b: int| i < b < j ==> v@[i as int] != v@[b],
            decreases v@.len() - j,
        {
            if v[i] == v[j] {
                return true;
            }
            j = j + 1;
        }
        i = i + 1;
    }
    false
}

impl Circuit {
    /// Validate circuit correctness.
    pub fn validate(&self) -> (r: Result<(), Error>)
        ensures
            outcome(r) == circuit_fault(self@),
            r matches Err(e) ==> message_of(e) == circuit_message(self@),
    {
        proof {
            lemma_joined_small("classical_bits must be > 0 when provided", "", "");
        }
        if self.qubits == 0 || self.qubits > 30 {
            let count = decimal_text(self.qubits);
            let cs: &str = count.as_str();
            proof {
                lemma_joined_small("Invalid qubit count: ", cs, ". Must be between 1 and 30.");
            }
            return Err(
                circuit_error(join(&["Invalid qubit count: ", cs, ". Must be between 1 and 30."])),
            );
        }
        if let Some(noise) = &self.readout_noise {
            self.validate_noise(noise)?;
            if !Self::contains_readout_error(noise) {
                return Err(
                    noise_error(
                        "readout_noise must be READOUT_ERROR or COMPOSITE containing READOUT_ERROR",
                    ),
                );
            }
        }
        if let Some(classical_bits) = self.classical_bits {
            if classical_bits == 0 {
                let parts = ["classical_bits must be > 0 when provided"];
                assert(parts@ =~= seq!["classical_bits must be > 0 when provided"]);
                return Err(circuit_error(join(&parts)));
            }
        }
        let ghost c = self@;
        let ghost gs = c.gates;
        assert(gs.skip(0) =~= gs);
        let mut idx: usize = 0;
        while idx < self.gates.len()
            invariant
                c == self@,
                gs == c.gates,
                gs.len() == self.gates@.len(),
                circuit_fault(c) == first_of(
                    gates_fault(c, gs),
                    opt_noise_fault(c.qubits, c.global_noise),
                ),
                idx <= gs.len(),
                gates_fault(c, gs) == gates_fault(c, gs.skip(idx as int)),
                circuit_fault(c) is Some ==> circuit_message(c) == if gates_fault(c, gs) is Some {
                    gates_message(c, gs, 0)
                } else {
                    noise_message(c.qubits, c.global_noise->0)
                },
                gates_message(c, gs, 0) == gates_message(c, gs.skip(idx as int), idx),
            decreases gs.len() - idx,
        {
            assert(gs.skip(idx as int).drop_first() =~= gs.skip(idx as int + 1));
            assert(gs.skip(idx as int)[0] == self.gates@[idx as int]@);
            self.validate_gate(&self.gates[idx], idx)?;
            idx = idx + 1;
        }
        assert(gs.skip(idx as int) =~= Seq::<GateSpec>::empty());
        if let Some(noise) = &self.global_noise {
            self.validate_noise(noise)?;
        }
        Ok(())
    }

    fn validate_gate(&self, gate: &GateInstruction, idx: usize) -> (r: Result<(), Error>)
        ensures
            outcome(r) == gate_fault(self@, gate@),
            r matches Err(e) ==> message_of(e) == gate_message_named(
                self@,
                upper_text(gate.gate_type@),
                gate@,
                idx,
            ),
    {
        let gate_type = to_upper(gate.gate_type.as_str());
        self.validate_gate_named(gate_type.as_str(), gate, idx)
    }

    /// Checks gate `gate`, at position `idx`, whose upper-cased name is
    /// `gate_type`, against the rules of this circuit.
    pub fn validate_gate_named(&self, gate_type: &str, gate: &GateInstruction, idx: usize) -> (r:
        Result<(), Error>)
        ensures
            outcome(r) == gate_fault_named(self@, gate_type@, gate@),
            r matches Err(e) ==> message_of(e) == gate_message_named(self@, gate_type@, gate@, idx),
    {
        proof {
            lemma_joined_small("Unknown gate type: ", gate_type, "");
        }
        let controls = gate.resolved_controls();
        let ghost g = gate@;
        if let Some(repeat) = gate.repeat {
            if repeat == 0 {
                return Err(
                    circuit_error(gate_message(gate_type, idx, " has invalid repeat=0")),
                );
            }
        }
        self.validate_condition(gate, gate_type, idx)?;
        match gate_kind_of(gate_type) {
            GateKind::X | GateKind::Y | GateKind::Z | GateKind::H | GateKind::S | GateKind::T => {
                let target = self.validate_target_required(gate, gate_type, idx)?;
                self.validate_controls(&controls, target, gate, gate_type, idx)?;
            },
            GateKind::Rx | GateKind::Ry | GateKind::Rz => {
                if gate.parameter.is_none() {
                    return Err(
                        circuit_error(
                            gate_message(gate_type, idx, " requires 'parameter'"),
                        ),
                    );
                }
                let target = self.validate_target_required(gate, gate_type, idx)?;
                self.validate_controls(&controls, target, gate, gate_type, idx)?;
            },
            GateKind::Cnot | GateKind::Cz => {
                let target = self.validate_target_required(gate, gate_type, idx)?;
                Self::validate_controls_count(&controls, 1, gate_type, idx)?;
                self.validate_controls(&controls, target, gate, gate_type, idx)?;
            },
            GateKind::Cp => {
                if gate.parameter.is_none() {
                    return Err(
                        circuit_error(
                            gate_message(gate_type, idx, " requires 'parameter'"),
                        ),
                    );
                }
                let target = self.validate_target_required(gate, gate_type, idx)?;
                Self::validate_controls_count(&controls, 1, gate_type, idx)?;
                self.validate_controls(&controls, target, gate, gate_type, idx)?;
            },
            GateKind::Ccx => {
                let target = self.validate_target_required(gate, gate_type, idx)?;
                Self::validate_controls_count(&controls, 2, gate_type, idx)?;
                self.validate_controls(&controls, target, gate, gate_type, idx)?;
            },
            GateKind::Swap => {
                if let Some(extra) = &gate.controls {
                    if extra.len() > 0 {
                        return Err(
                            circuit_error(
                                gate_message(
                                    gate_type,
                                    idx,
                                    " does not support 'controls' list",
                                ),
                            ),
                        );
                    }
                }
                if gate.control.is_none() || gate.target.is_none() {
                    return Err(
                        circuit_error(
                            gate_message(
                                gate_type,
                                idx,
                                " requires 'control' and 'target'",
                            ),
                        ),
                    );
                }
                let q1 = gate.control.unwrap();
                let q2 = gate.target.unwrap();
                self.validate_qubit(q1)?;
                self.validate_qubit(q2)?;
                if q1 == q2 {
                    return Err(
                        circuit_error(
                            gate_message(gate_type, idx, ": qubits must be different"),
                        ),
                    );
                }
            },
            GateKind::Measure | GateKind::Reset => {
                if controls.len() > 0 {
                    return Err(
                        circuit_error(
                            gate_message(gate_type, idx, " does not support controls"),
                        ),
                    );
                }
                let target = self.validate_target_required(gate, gate_type, idx)?;
                self.validate_qubit(target)?;
                if gate_kind_of(gate_type) == GateKind::Measure {
                    let cbit = match gate.cbit {
                        Some(b) => b,
                        None => target,
                    };
                    self.validate_cbit(cbit, gate_type, idx)?;
                }
            },
            GateKind::Barrier => {
                let qubits = gate.involved_qubits();
                self.validate_qubits(&qubits)?;
            },
            GateKind::Unitary => {
                let target = self.validate_target_required(gate, gate_type, idx)?;
                self.validate_controls(&controls, target, gate, gate_type, idx)?;
                if gate.matrix.is_none() {
                    return Err(
                        circuit_error(
                            gate_message(
                                gate_type,
                                idx,
                                " requires 'matrix' as 2x2 complex entries",
                            ),
                        ),
                    );
                }
                if !gate.matrix_is_unitary {
                    return Err(
                        circuit_error(
                            gate_message(gate_type, idx, " has non-unitary matrix"),
                        ),
                    );
                }
            },
            GateKind::Unknown => {
                return Err(
                    circuit_error(join(&["Unknown gate type: ", gate_type])),
                );
            },
        }
        if let Some(noise) = &gate.noise {
            self.validate_noise(noise)?;
        }
        if let Some(noise) = &self.global_noise {
            self.validate_noise(noise)?;
        }
        Ok(())
    }

    fn validate_target_required(&self, gate: &GateInstruction, gate_type: &str, idx: usize) -> (r:
        Result<usize, Error>)
        ensures
            outcome(r) == target_fault(self.qubits, gate@),
            r matches Ok(t) ==> gate.target == Some(t),
            r matches Err(e) ==> message_of(e) == target_message(gate_type@, idx, gate@),
    {
        if gate.target.is_none() {
            return Err(circuit_error(gate_message(gate_type, idx, " requires 'target'")));
        }
        let target = gate.target.unwrap();
        self.validate_qubit(target)?;
        Ok(target)
    }

    fn validate_controls(
        &self,
        controls: &Vec<usize>,
        target: usize,
        gate: &GateInstruction,
        gate_type: &str,
        idx: usize,
    ) -> (r: Result<(), Error>)
        requires
            controls@ == gate@.resolved_controls(),
        ensures
            outcome(r) == controls_fault(self.qubits, gate@, target),
            r matches Err(e) ==> message_of(e) == controls_message(
                self.qubits,
                gate@,
                target,
                gate_type@,
                idx,
            ),
    {
        let ghost cs = controls@;
        assert(cs.skip(0) =~= cs);
        let mut i: usize = 0;
        while i < controls.len()
            invariant
                cs == controls@,
                cs == gate@.resolved_controls(),
                i <= cs.len(),
                control_list_fault(self.qubits, cs, target) == control_list_fault(
                    self.qubits,
                    cs.skip(i as int),
                    target,
                ),
                control_list_message(self.qubits, cs, target, gate_type@, idx)
                    == control_list_message(self.qubits, cs.skip(i as int), target, gate_type@, idx),
            decreases cs.len() - i,
        {
            assert(cs.skip(i as int).drop_first() =~= cs.skip(i as int + 1));
            assert(cs.skip(i as int)[0] == cs[i as int]);
            let control = controls[i];
            self.validate_qubit(control)?;
            if control == target {
                return Err(
                    circuit_error(
                        gate_message(gate_type, idx, ": control and target must be different"),
                    ),
                );
            }
            i = i + 1;
        }
        if let Some(extra) = &gate.controls {
            if has_repeats(extra) {
                return Err(circuit_error(gate_message(gate_type, idx, " has duplicate controls")));
            }
        }
        Ok(())
    }

    fn validate_controls_count(controls: &Vec<usize>, expected: usize, gate_type: &str, idx: usize) -> (r:
        Result<(), Error>)
        ensures
            r is Ok <==> controls@.len() == expected,
            r is Err ==> fault_of(r->Err_0) == Fault::CircuitValidation,
            r matches Err(e) ==> message_of(e) == gate_text(
                gate_type@,
                idx,
                " requires exactly "@ + decimal(expected) + " control qubit(s), got "@ + decimal(
                    controls@.len() as usize,
                ),
            ),
    {
        if controls.len() != expected {
            let mut tail = String::new();
            tail.append(" requires exactly ");
            tail.append(decimal_text(expected).as_str());
            tail.append(" control qubit(s), got ");
            tail.append(decimal_text(controls.len()).as_str());
            let m = gate_message(gate_type, idx, tail.as_str());
            assert(tail@ =~= " requires exactly "@ + decimal(expected) + " control qubit(s), got "@
                + decimal(controls@.len() as usize));
            return Err(circuit_error(m));
        }
        Ok(())
    }

    fn validate_qubit(&self, qubit: usize) -> (r: Result<(), Error>)
        ensures
            outcome(r) == qubit_fault(qubit, self.qubits),
            r matches Err(e) ==> message_of(e) == Seq::<char>::empty(),
    {
        if qubit >= self.qubits {
            return Err(Error::InvalidQubitIndex { index: qubit, max: self.qubits });
        }
        Ok(())
    }

    fn validate_qubits(&self, qubits: &Vec<usize>) -> (r: Result<(), Error>)
        ensures
            outcome(r) == qubits_fault(self.qubits, qubits@),
            r matches Err(e) ==> message_of(e) == Seq::<char>::empty(),
    {
        let ghost qs = qubits@;
        assert(qs.skip(0) =~= qs);
        let mut i: usize = 0;
        while i < qubits.len()
            invariant
                qs == qubits@,
                i <= qs.len(),
                qubits_fault(self.qubits, qs) == qubits_fault(self.qubits, qs.skip(i as int)),
            decreases qs.len() - i,
        {
            assert(qs.skip(i as int).drop_first() =~= qs.skip(i as int + 1));
            self.validate_qubit(qubits[i])?;
            i = i + 1;
        }
        Ok(())
    }

    fn validate_noise(&self, noise: &NoiseConfig) -> (r: Result<(), Error>)
        ensures
            outcome(r) == noise_fault(self.qubits, noise@),
            r matches Err(e) ==> message_of(e) == noise_message(self.qubits, noise@),
        decreases noise, 1int,
    {
        let noise_type = to_upper(noise.noise_type.as_str());
        self.validate_noise_named(noise_type.as_str(), noise)
    }

    /// Checks noise configuration `noise`, whose upper-cased name is
    /// `noise_type`, against the rules of this circuit.
    pub fn validate_noise_named(&self, noise_type: &str, noise: &NoiseConfig) -> (r: Result<
        (),
        Error,
    >)
        ensures
            outcome(r) == noise_fault_named(self.qubits, noise_type@, noise@),
            r matches Err(e) ==> message_of(e) == noise_message_named(
                self.qubits,
                noise_type@,
                noise@,
            ),
        decreases noise, 0int,
    {
        if !noise.checks.probability_in_range {
            return Err(noise_error("Noise probability must be in [0, 1]"));
        }
        match noise_kind_of(noise_type) {
            NoiseKind::BitFlip | NoiseKind::PhaseFlip | NoiseKind::Depolarizing
            | NoiseKind::AmplitudeDamping | NoiseKind::ReadoutError => {},
            NoiseKind::T1T2Relaxation => {
                if noise.t1.is_none() {
                    return Err(noise_error("T1_T2_RELAXATION requires t1"));
                }
                if noise.t2.is_none() {
                    return Err(noise_error("T1_T2_RELAXATION requires t2"));
                }
                if noise.dt.is_none() {
                    return Err(noise_error("T1_T2_RELAXATION requires dt"));
                }
                if !noise.checks.relaxation_times_valid {
                    return Err(noise_error("T1_T2_RELAXATION requires t1,t2 > 0 and dt >= 0"));
                }
            },
            NoiseKind::CoherentOverRotation => {
                if noise.angle.is_none() {
                    return Err(noise_error("COHERENT_OVER_ROTATION requires angle"));
                }
                if let Some(axis) = &noise.axis {
                    let axis = to_upper(axis.as_str());
                    if axis_of(axis.as_str()).is_none() {
                        return Err(noise_error2("Invalid COHERENT_OVER_ROTATION axis: ", axis.as_str()));
                    }
                }
            },
            NoiseKind::Crosstalk => {
                match &noise.coupled_qubits {
                    None => {
                        return Err(noise_error("CROSSTALK requires coupled_qubits"));
                    },
                    Some(coupled) => {
                        if coupled.len() == 0 {
                            return Err(noise_error("CROSSTALK coupled_qubits cannot be empty"));
                        }
                        self.validate_qubits(coupled)?;
                    },
                }
            },
            NoiseKind::Kraus => {
                match &noise.kraus {
                    None => {
                        return Err(noise_error("KRAUS requires kraus operators"));
                    },
                    Some(ops) => {
                        if ops.len() == 0 {
                            return Err(noise_error("KRAUS requires at least one operator"));
                        }
                        if !noise.checks.kraus_complete {
                            return Err(
                                noise_error("KRAUS operators violate completeness relation"),
                            );
                        }
                    },
                }
            },
            NoiseKind::Composite => {
                match &noise.channels {
                    None => {
                        return Err(noise_error("COMPOSITE requires channels"));
                    },
                    Some(channels) => {
                        if channels.len() == 0 {
                            return Err(noise_error("COMPOSITE channels cannot be empty"));
                        }
                        let ghost chs = channel_views(channels@);
                        proof {
                            lemma_channel_views_len(channels@);
                        }
                        assert(chs.skip(0) =~= chs);
                        let mut i: usize = 0;
                        while i < channels.len()
                            invariant
                                noise.channels == Some(*channels),
                                chs == channel_views(channels@),
                                chs.len() == channels@.len(),
                                i <= chs.len(),
                                noise_fault_named(self.qubits, noise_type@, noise@) == channels_fault(
                                    self.qubits,
                                    chs,
                                ),
                                channels_fault(self.qubits, chs) == channels_fault(
                                    self.qubits,
                                    chs.skip(i as int),
                                ),
                                noise_message_named(self.qubits, noise_type@, noise@)
                                    == channels_message(self.qubits, chs),
                                channels_message(self.qubits, chs) == channels_message(
                                    self.qubits,
                                    chs.skip(i as int),
                                ),
                            decreases chs.len() - i,
                        {
                            proof {
                                vstd::std_specs::vec::axiom_vec_index_decreases(*channels, i as int);
                                assert(decreases_to!(*noise => noise.channels));
                                assert(decreases_to!(noise.channels => noise.channels->0));
                                assert(chs.skip(i as int).drop_first() =~= chs.skip(i as int + 1));
                                lemma_channel_views_index(channels@, i as int);
                                assert(chs.skip(i as int)[0] == channels@[i as int]@);
                            }
                            self.validate_noise(&channels[i])?;
                            i = i + 1;
                        }
                    },
                }
            },
            NoiseKind::Unknown => {
                return Err(noise_error2("Unknown noise type: ", noise_type));
            },
        }
        Ok(())
    }

    /// Whether a noise configuration is, or composes, a readout error.
    fn contains_readout_error(noise: &NoiseConfig) -> (r: bool)
        ensures
            r == contains_readout(noise@),
        decreases noise,
    {
        let noise_type = to_upper(noise.noise_type.as_str());
        match noise_kind_of(noise_type.as_str()) {
            NoiseKind::ReadoutError => true,
            NoiseKind::Composite => {
                match &noise.channels {
                    Some(channels) => {
                        let ghost chs = channel_views(channels@);
                        proof {
                            lemma_channel_views_len(channels@);
                        }
                        assert(chs.skip(0) =~= chs);
                        let mut i: usize = 0;
                        while i < channels.len()
                            invariant
                                noise.channels == Some(*channels),
                                chs == channel_views(channels@),
                                chs.len() == channels@.len(),
                                i <= chs.len(),
                                contains_readout(noise@) == any_contains_readout(chs),
                                any_contains_readout(chs) == any_contains_readout(chs.skip(i as int)),
                            decreases chs.len() - i,
                        {
                            proof {
                                vstd::std_specs::vec::axiom_vec_index_decreases(*channels, i as int);
                                assert(decreases_to!(*noise => noise.channels));
                                assert(decreases_to!(noise.channels => noise.channels->0));
                                assert(chs.skip(i as int).drop_first() =~= chs.skip(i as int + 1));
                                lemma_channel_views_index(channels@, i as int);
                                assert(chs.skip(i as int)[0] == channels@[i as int]@);
                            }
                            if Self::contains_readout_error(&channels[i]) {
                                return true;
                            }
                            i = i + 1;
                        }
                        false
                    },
                    None => false,
                }
            },
            _ => false,
        }
    }

    fn classical_bits_count(&self) -> (r: usize)
        ensures
            r == self@.classical_bits_count(),
    {
        match self.classical_bits {
            Some(b) => b,
            None => self.qubits,
        }
    }

    fn validate_cbit(&self, cbit: usize, gate_type: &str, idx: usize) -> (r: Result<(), Error>)
        ensures
            outcome(r) == self@.cbit_fault(cbit),
            r matches Err(e) ==> message_of(e) == cbit_text(self@, gate_type@, idx, cbit),
    {
        let count = self.classical_bits_count();
        if cbit >= count {
            let max = if count == 0 {
                0
            } else {
                count - 1
            };
            let mut tail = String::new();
            tail.append(" references invalid classical bit ");
            tail.append(decimal_text(cbit).as_str());
            tail.append(" (max ");
            tail.append(decimal_text(max).as_str());
            tail.append(")");
            let m = gate_message(gate_type, idx, tail.as_str());
            assert(tail@ =~= " references invalid classical bit "@ + decimal(cbit) + " (max "@
                + decimal(max_cbit(self@)) + ")"@);
            return Err(circuit_error(m));
        }
        Ok(())
    }

    fn validate_condition(&self, gate: &GateInstruction, gate_type: &str, idx: usize) -> (r: Result<
        (),
        Error,
    >)
        ensures
            outcome(r) == (if gate.condition is Some && gate.condition->0.register
                >= self@.classical_bits_count() {
                Some(Fault::CircuitValidation)
            } else {
                None
            }),
            r matches Err(e) ==> message_of(e) == cbit_text(
                self@,
                gate_type@,
                idx,
                gate.condition->0.register,
            ),
    {
        if let Some(condition) = &gate.condition {
            self.validate_cbit(condition.register, gate_type, idx)?;
        }
        Ok(())
    }

    /// Get circuit description.
    pub fn description(&self) -> (r: String)
        ensures
            r@ == "Circuit: "@ + decimal(self.qubits) + " qubits, "@ + decimal(
                self.gates@.len() as usize,
            ) + " gates"@,
    {
        let r = join(
            &[
                "Circuit: ",
                decimal_text(self.qubits).as_str(),
                " qubits, ",
                decimal_text(self.gates.len()).as_str(),
                " gates",
            ],
        );
        proof {
            reveal_with_fuel(crate::text::joined, 6);
        }
        r
    }
}

proof fn lemma_channel_views_len(s: Seq<NoiseConfig>)
    ensures
        channel_views(s).len() == s.len(),
    decreases s.len(),
{
    if s.len() > 0 {
        lemma_channel_views_len(s.drop_last());
    }
}

proof fn lemma_channel_views_index(s: Seq<NoiseConfig>, i: int)
    requires
        0 <= i < s.len(),
    ensures
        channel_views(s).len() == s.len(),
        channel_views(s)[i] == s[i]@,
    decreases s.len(),
{
    lemma_channel_views_len(s);
    lemma_channel_views_len(s.drop_last());
    if i < s.len() - 1 {
        lemma_channel_views_index(s.drop_last(), i);
    }
}

} // verus!
