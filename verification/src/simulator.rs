//! The simulator's decisions: which state-vector operation each gate stands
//! for, when a gate runs, and which noise follows it. The amplitude
//! arithmetic that carries the operations out is done by the caller.
use vstd::prelude::*;
use crate::circuit::{gate_fault, Circuit, CircuitSpec, ClassicalCondition, GateInstruction, GateSpec, Matrix2x2, NoiseConfig, NoiseSpec, copy_indices, opt_noise_view};
use crate::error::{Error, Fault, fault_of, message_of, outcome};
use crate::kinds::{Axis, GateKind, gate_kind_named, gate_kind_of};
use crate::text::{join, joined, lemma_joined_small, to_upper, upper_text, decimal, decimal_text};

verus! {

/// Simulation configuration.
#[derive(Debug, Clone, Copy)]
pub struct SimulationConfig {
    /// Number of measurement shots.
    pub shots: usize,
    /// Enable circuit optimization.
    pub optimize: bool,
    /// Enable noise injection.
    pub apply_noise: bool,
    /// Random seed (0 = random).
    pub seed: u64,
}

impl Default for SimulationConfig {
    fn default() -> (r: Self)
        ensures
            r == (SimulationConfig { shots: 1024, optimize: true, apply_noise: true, seed: 0 }),
    {
        SimulationConfig { shots: 1024, optimize: true, apply_noise: true, seed: 0 }
    }
}

/// Main quantum simulator.
#[derive(Debug)]
pub struct Simulator {
    config: SimulationConfig,
}

/// A single-qubit gate with a fixed matrix.
#[derive(Debug, Clone, Copy, PartialEq, Eq, Structural)]
pub enum FixedGate {
    X,
    Y,
    Z,
    H,
    S,
    T,
}

/// The 2x2 matrix a gate applies to its target.
#[derive(Debug, Clone, Copy)]
pub enum MatrixGate {
    Fixed(FixedGate),
    /// Rotation about an axis by an angle (bit pattern).
    Rotation(Axis, u64),
    /// A matrix given in the circuit.
    Custom(Matrix2x2),
}

/// The state-vector operation a gate instruction stands for.
#[derive(Debug)]
pub enum GateOperation {
    /// A single-qubit matrix on `target`, without controls.
    Single { gate: MatrixGate, target: usize },
    /// A single-qubit matrix on `target`, applied where all `controls` are |1>.
    Controlled { gate: MatrixGate, controls: Vec<usize>, target: usize },
    Cnot { control: usize, target: usize },
    Cz { control: usize, target: usize },
    Cp { control: usize, target: usize, angle: u64 },
    Ccx { control1: usize, control2: usize, target: usize },
    Swap { qubit1: usize, qubit2: usize },
    /// Mid-circuit measurement of `target` into classical bit `cbit`.
    Measure { target: usize, cbit: usize },
    /// Measure `target` and flip it back to |0> if it read 1.
    Reset { target: usize },
    Barrier,
}

/// The content of a gate operation.
pub enum OperationSpec {
    Single { gate: MatrixGate, target: usize },
    Controlled { gate: MatrixGate, controls: Seq<usize>, target: usize },
    Cnot { control: usize, target: usize },
    Cz { control: usize, target: usize },
    Cp { control: usize, target: usize, angle: u64 },
    Ccx { control1: usize, control2: usize, target: usize },
    Swap { qubit1: usize, qubit2: usize },
    Measure { target: usize, cbit: usize },
    Reset { target: usize },
    Barrier,
}

impl View for GateOperation {
    type V = OperationSpec;

    open spec fn view(&self) -> OperationSpec {
        match self {
            GateOperation::Single { gate, target } => OperationSpec::Single {
                gate: *gate,
                target: *target,
            },
            GateOperation::Controlled { gate, controls, target } => OperationSpec::Controlled {
                gate: *gate,
                controls: controls@,
                target: *target,
            },
            GateOperation::Cnot { control, target } => OperationSpec::Cnot {
                control: *control,
                target: *target,
            },
            GateOperation::Cz { control, target } => OperationSpec::Cz {
                control: *control,
                target: *target,
            },
            GateOperation::Cp { control, target, angle } => OperationSpec::Cp {
                control: *control,
                target: *target,
                angle: *angle,
            },
            GateOperation::Ccx { control1, control2, target } => OperationSpec::Ccx {
                control1: *control1,
                control2: *control2,
                target: *target,
            },
            GateOperation::Swap { qubit1, qubit2 } => OperationSpec::Swap {
                qubit1: *qubit1,
                qubit2: *qubit2,
            },
            GateOperation::Measure { target, cbit } => OperationSpec::Measure {
                target: *target,
                cbit: *cbit,
            },
            GateOperation::Reset { target } => OperationSpec::Reset { target: *target },
            GateOperation::Barrier => OperationSpec::Barrier,
        }
    }
}

/// A single-qubit matrix applied directly when there are no controls, else under them.
pub open spec fn matrix_operation(gate: MatrixGate, controls: Seq<usize>, target: usize) -> OperationSpec {
    if controls.len() == 0 {
        OperationSpec::Single { gate, target }
    } else {
        OperationSpec::Controlled { gate, controls, target }
    }
}

/// The operation gate `g`, whose upper-cased name is `u`, stands for, or
/// `None` when it cannot run.
pub open spec fn operation_named(u: Seq<char>, g: GateSpec) -> Option<OperationSpec> {
    let controls = g.resolved_controls();
    match gate_kind_named(u) {
        GateKind::X | GateKind::Y | GateKind::Z | GateKind::H | GateKind::S | GateKind::T => match g.target {
            Some(t) => Some(
                matrix_operation(
                    MatrixGate::Fixed(
                        match gate_kind_named(u) {
                            GateKind::X => FixedGate::X,
                            GateKind::Y => FixedGate::Y,
                            GateKind::Z => FixedGate::Z,
                            GateKind::H => FixedGate::H,
                            GateKind::S => FixedGate::S,
                            _ => FixedGate::T,
                        },
                    ),
                    controls,
                    t,
                ),
            ),
            None => None,
        },
        GateKind::Rx | GateKind::Ry | GateKind::Rz => match (g.target, g.parameter) {
            (Some(t), Some(p)) => Some(
                matrix_operation(
                    MatrixGate::Rotation(
                        match gate_kind_named(u) {
                            GateKind::Rx => Axis::X,
                            GateKind::Ry => Axis::Y,
                            _ => Axis::Z,
                        },
                        p,
                    ),
                    controls,
                    t,
                ),
            ),
            _ => None,
        },
        GateKind::Cnot => match g.target {
            Some(t) => if controls.len() == 1 {
                Some(OperationSpec::Cnot { control: controls[0], target: t })
            } else {
                None
            },
            None => None,
        },
        GateKind::Cz => match g.target {
            Some(t) => if controls.len() == 1 {
                Some(OperationSpec::Cz { control: controls[0], target: t })
            } else {
                None
            },
            None => None,
        },
        GateKind::Cp => match (g.target, g.parameter) {
            (Some(t), Some(p)) => if controls.len() == 1 {
                Some(OperationSpec::Cp { control: controls[0], target: t, angle: p })
            } else {
                None
            },
            _ => None,
        },
        GateKind::Ccx => match g.target {
            Some(t) => if controls.len() == 2 {
                Some(OperationSpec::Ccx { control1: controls[0], control2: controls[1], target: t })
            } else {
                None
            },
            None => None,
        },
        GateKind::Swap => match (g.control, g.target) {
            (Some(q1), Some(q2)) => Some(OperationSpec::Swap { qubit1: q1, qubit2: q2 }),
            _ => None,
        },
        GateKind::Measure => match g.target {
            Some(t) => Some(
                OperationSpec::Measure {
                    target: t,
                    cbit: match g.cbit {
                        Some(b) => b,
                        None => t,
                    },
                },
            ),
            None => None,
        },
        GateKind::Reset => match g.target {
            Some(t) => Some(OperationSpec::Reset { target: t }),
            None => None,
        },
        GateKind::Barrier => Some(OperationSpec::Barrier),
        GateKind::Unitary => match (g.target, g.matrix) {
            (Some(t), Some(m)) => Some(matrix_operation(MatrixGate::Custom(m), controls, t)),
            _ => None,
        },
        GateKind::Unknown => None,
    }
}

/// The operation a gate instruction stands for, or `None` when it cannot run.
pub open spec fn operation_of(g: GateSpec) -> Option<OperationSpec> {
    operation_named(upper_text(g.gate_type), g)
}

/// The name a gate kind is reported under when it cannot run.
pub open spec fn gate_label(k: GateKind) -> Seq<char> {
    match k {
        GateKind::X => "X"@,
        GateKind::Y => "Y"@,
        GateKind::Z => "Z"@,
        GateKind::H => "H"@,
        GateKind::S => "S"@,
        GateKind::T => "T"@,
        GateKind::Rx => "RX"@,
        GateKind::Ry => "RY"@,
        GateKind::Rz => "RZ"@,
        GateKind::Cnot => "CNOT"@,
        GateKind::Cz => "CZ"@,
        GateKind::Cp => "CP"@,
        GateKind::Ccx => "CCX"@,
        GateKind::Swap => "SWAP"@,
        GateKind::Measure => "MEASURE"@,
        GateKind::Reset => "RESET"@,
        GateKind::Barrier => "BARRIER"@,
        GateKind::Unitary => "UNITARY"@,
        GateKind::Unknown => Seq::empty(),
    }
}

/// The message with which gate `g`, whose upper-cased name is `u`, is
/// rejected when it cannot run.
pub open spec fn operation_message(u: Seq<char>, g: GateSpec) -> Seq<char> {
    let k = gate_kind_named(u);
    if k == GateKind::Unknown {
        "Unknown gate: "@ + u
    } else if k == GateKind::Swap {
        "SWAP gate requires two qubits"@
    } else if g.target is None {
        gate_label(k) + " gate requires target"@
    } else if (k == GateKind::Rx || k == GateKind::Ry || k == GateKind::Rz || k == GateKind::Cp)
        && g.parameter is None {
        gate_label(k) + " gate requires parameter"@
    } else if k == GateKind::Unitary {
        "UNITARY gate requires matrix"@
    } else if k == GateKind::Ccx {
        "CCX gate requires exactly two controls"@
    } else if k == GateKind::Cnot {
        "CNOT gate requires exactly one control"@
    } else if k == GateKind::Cz {
        "CZ gate requires exactly one control"@
    } else {
        "CP gate requires exactly one control"@
    }
}

/// Whether a gate's condition holds of the classical register (`None`: the
/// condition names a bit outside the register).
pub open spec fn condition_holds(condition: Option<ClassicalCondition>, classical: Seq<bool>) -> Option<bool> {
    match condition {
        Some(c) => if c.register >= classical.len() {
            None
        } else {
            Some(classical[c.register as int] == c.value)
        },
        None => Some(true),
    }
}

fn simulation_error(parts: &[&str]) -> (e: Error)
    ensures
        fault_of(e) == Fault::Simulation,
        message_of(e) == joined(parts@),
{
    Error::SimulationError { reason: join(parts) }
}

fn simulation_text(m: String) -> (e: Error)
    ensures
        fault_of(e) == Fault::Simulation,
        message_of(e) == m@,
{
    Error::SimulationError { reason: m }
}

fn simulation_message(m: &str) -> (e: Error)
    ensures
        fault_of(e) == Fault::Simulation,
        message_of(e) == m@,
{
    proof {
        lemma_joined_small(m, "", "");
    }
    let parts = [m];
    assert(parts@ =~= seq![m]);
    simulation_error(&parts)
}

fn simulation_message2(a: &str, b: &str) -> (e: Error)
    ensures
        fault_of(e) == Fault::Simulation,
        message_of(e) == a@ + b@,
{
    proof {
        lemma_joined_small(a, b, "");
    }
    simulation_error(&[a, b])
}

fn required_target(gate: &GateInstruction, gate_name: &str) -> (r: Result<usize, Error>)
    ensures
        r matches Ok(t) ==> gate.target == Some(t),
        r is Err ==> gate.target is None && fault_of(r->Err_0) == Fault::Simulation,
        r is Err ==> message_of(r->Err_0) == gate_name@ + " gate requires target"@,
{
    proof {
        lemma_joined_small(gate_name, " gate requires target", "");
    }
    match gate.target {
        Some(t) => Ok(t),
        None => Err(simulation_error(&[gate_name, " gate requires target"])),
    }
}

fn required_parameter(gate: &GateInstruction, gate_name: &str) -> (r: Result<u64, Error>)
    ensures
        r matches Ok(p) ==> gate.parameter == Some(p),
        r is Err ==> gate.parameter is None && fault_of(r->Err_0) == Fault::Simulation,
        r is Err ==> message_of(r->Err_0) == gate_name@ + " gate requires parameter"@,
{
    proof {
        lemma_joined_small(gate_name, " gate requires parameter", "");
    }
    match gate.parameter {
        Some(p) => Ok(p),
        None => Err(simulation_error(&[gate_name, " gate requires parameter"])),
    }
}

fn matrix_operation_exec(gate: MatrixGate, controls: Vec<usize>, target: usize) -> (r: GateOperation)
    ensures
        r@ == matrix_operation(gate, controls@, target),
{
    if controls.len() == 0 {
        GateOperation::Single { gate, target }
    } else {
        GateOperation::Controlled { gate, controls, target }
    }
}

impl Simulator {
    /// The configuration, in specifications.
    pub closed spec fn configuration(&self) -> SimulationConfig {
        self.config
    }

    /// Create a new simulator.
    pub fn new(config: SimulationConfig) -> (r: Self)
        ensures
            r.configuration() == config,
    {
        Simulator { config }
    }

    /// The configuration this simulator runs with.
    pub fn config(&self) -> (r: &SimulationConfig)
        ensures
            *r == self.configuration(),
    {
        &self.config
    }

    /// Whether a gate's classical condition holds.
    pub fn condition_matches(condition: Option<&ClassicalCondition>, classical_state: &[bool]) -> (r:
        Result<bool, Error>)
        ensures
            match condition_holds(
                match condition {
                    Some(c) => Some(*c),
                    None => None,
                },
                classical_state@,
            ) {
                Some(b) => r == Ok::<bool, Error>(b),
                None => {
                    &&& r is Err
                    &&& fault_of(r->Err_0) == Fault::Simulation
                    &&& message_of(r->Err_0) == "Condition register "@ + decimal(
                        condition->0.register,
                    ) + " out of bounds (max "@ + decimal(
                        if classical_state@.len() == 0 {
                            0usize
                        } else {
                            (classical_state@.len() - 1) as usize
                        },
                    ) + ")"@
                },
            },
    {
        if let Some(condition) = condition {
            if condition.register >= classical_state.len() {
                let max = if classical_state.len() == 0 {
                    0
                } else {
                    classical_state.len() - 1
                };
                let mut m = String::new();
                m.append("Condition register ");
                m.append(decimal_text(condition.register).as_str());
                m.append(" out of bounds (max ");
                m.append(decimal_text(max).as_str());
                m.append(")");
                return Err(simulation_text(m));
            }
            return Ok(classical_state[condition.register] == condition.value);
        }
        Ok(true)
    }

    /// How many times a gate runs.
    pub fn repeat_count(gate: &GateInstruction) -> (r: usize)
        ensures
            r == match gate.repeat {
                Some(n) => n,
                None => 1,
            },
    {
        match gate.repeat {
            Some(n) => n,
            None => 1,
        }
    }

    /// The state-vector operation a gate stands for.
    pub fn gate_operation(gate: &GateInstruction) -> (r: Result<GateOperation, Error>)
        ensures
            match r {
                Ok(op) => operation_of(gate@) == Some(op@),
                Err(e) => {
                    &&& operation_of(gate@) is None
                    &&& fault_of(e) == Fault::Simulation
                    &&& message_of(e) == operation_message(upper_text(gate.gate_type@), gate@)
                },
            },
    {
        let gate_type = to_upper(gate.gate_type.as_str());
        Self::gate_operation_named(gate_type.as_str(), gate)
    }

    /// The state-vector operation a gate stands for, given its upper-cased name.
    pub fn gate_operation_named(gate_type: &str, gate: &GateInstruction) -> (r: Result<
        GateOperation,
        Error,
    >)
        ensures
            match r {
                Ok(op) => operation_named(gate_type@, gate@) == Some(op@),
                Err(e) => {
                    &&& operation_named(gate_type@, gate@) is None
                    &&& fault_of(e) == Fault::Simulation
                    &&& message_of(e) == operation_message(gate_type@, gate@)
                },
            },
    {

        let controls = gate.resolved_controls();
        match gate_kind_of(gate_type) {
            GateKind::X => {
                let target = required_target(gate, "X")?;
                Ok(matrix_operation_exec(MatrixGate::Fixed(FixedGate::X), controls, target))
            },
            GateKind::Y => {
                let target = required_target(gate, "Y")?;
                Ok(matrix_operation_exec(MatrixGate::Fixed(FixedGate::Y), controls, target))
            },
            GateKind::Z => {
                let target = required_target(gate, "Z")?;
                Ok(matrix_operation_exec(MatrixGate::Fixed(FixedGate::Z), controls, target))
            },
            GateKind::H => {
                let target = required_target(gate, "H")?;
                Ok(matrix_operation_exec(MatrixGate::Fixed(FixedGate::H), controls, target))
            },
            GateKind::S => {
                let target = required_target(gate, "S")?;
                Ok(matrix_operation_exec(MatrixGate::Fixed(FixedGate::S), controls, target))
            },
            GateKind::T => {
                let target = required_target(gate, "T")?;
                Ok(matrix_operation_exec(MatrixGate::Fixed(FixedGate::T), controls, target))
            },
            GateKind::Rx => {
                let target = required_target(gate, "RX")?;
                let angle = required_parameter(gate, "RX")?;
                Ok(matrix_operation_exec(MatrixGate::Rotation(Axis::X, angle), controls, target))
            },
            GateKind::Ry => {
                let target = required_target(gate, "RY")?;
                let angle = required_parameter(gate, "RY")?;
                Ok(matrix_operation_exec(MatrixGate::Rotation(Axis::Y, angle), controls, target))
            },
            GateKind::Rz => {
                let target = required_target(gate, "RZ")?;
                let angle = required_parameter(gate, "RZ")?;
                Ok(matrix_operation_exec(MatrixGate::Rotation(Axis::Z, angle), controls, target))
            },
            GateKind::Cnot => {
                let target = required_target(gate, "CNOT")?;
                if controls.len() != 1 {
                    return Err(simulation_message("CNOT gate requires exactly one control"));
                }
                Ok(GateOperation::Cnot { control: controls[0], target })
            },
            GateKind::Cz => {
                let target = required_target(gate, "CZ")?;
                if controls.len() != 1 {
                    return Err(simulation_message("CZ gate requires exactly one control"));
                }
                Ok(GateOperation::Cz { control: controls[0], target })
            },
            GateKind::Cp => {
                let target = required_target(gate, "CP")?;
                let angle = required_parameter(gate, "CP")?;
                if controls.len() != 1 {
                    return Err(simulation_message("CP gate requires exactly one control"));
                }
                Ok(GateOperation::Cp { control: controls[0], target, angle })
            },
            GateKind::Ccx => {
                let target = required_target(gate, "CCX")?;
                if controls.len() != 2 {
                    return Err(simulation_message("CCX gate requires exactly two controls"));
                }
                Ok(GateOperation::Ccx { control1: controls[0], control2: controls[1], target })
            },
            GateKind::Swap => {
                let q1 = match gate.control {
                    Some(q) => q,
                    None => {
                        return Err(simulation_message("SWAP gate requires two qubits"));
                    },
                };
                let q2 = match gate.target {
                    Some(q) => q,
                    None => {
                        return Err(simulation_message("SWAP gate requires two qubits"));
                    },
                };
                Ok(GateOperation::Swap { qubit1: q1, qubit2: q2 })
            },
            GateKind::Measure => {
                let target = required_target(gate, "MEASURE")?;
                let cbit = match gate.cbit {
                    Some(b) => b,
                    None => target,
                };
                Ok(GateOperation::Measure { target, cbit })
            },
            GateKind::Reset => {
                let target = required_target(gate, "RESET")?;
                Ok(GateOperation::Reset { target })
            },
            GateKind::Barrier => Ok(GateOperation::Barrier),
            GateKind::Unitary => {
                let target = required_target(gate, "UNITARY")?;
                let matrix = match gate.matrix {
                    Some(m) => m,
                    None => {
                        return Err(simulation_message("UNITARY gate requires matrix"));
                    },
                };
                Ok(matrix_operation_exec(MatrixGate::Custom(matrix), controls, target))
            },
            GateKind::Unknown => {
                Err(simulation_message2("Unknown gate: ", gate_type))
            },
        }
    }

    /// Store a mid-circuit measurement outcome in the classical register.
    pub fn record_measurement(classical_state: &mut Vec<bool>, cbit: usize, one: bool) -> (r: Result<
        (),
        Error,
    >)
        ensures
            r is Ok <==> cbit < old(classical_state)@.len(),
            r is Err ==> fault_of(r->Err_0) == Fault::Simulation && final(classical_state)@ == old(
                classical_state,
            )@,
            r is Ok ==> final(classical_state)@ == old(classical_state)@.update(cbit as int, one),
            r matches Err(e) ==> message_of(e) == "MEASURE cbit "@ + decimal(cbit) + " out of bounds"@,
    {
        if cbit >= classical_state.len() {
            let mut m = String::new();
            m.append("MEASURE cbit ");
            m.append(decimal_text(cbit).as_str());
            m.append(" out of bounds");
            return Err(simulation_text(m));
        }
        classical_state.set(cbit, one);
        Ok(())
    }

    /// The classical register at the start of a run: all bits clear, one per
    /// declared classical bit (one per qubit when none are declared).
    pub fn initial_classical_state(circuit: &Circuit) -> (r: Vec<bool>)
        ensures
            r@.len() == circuit@.classical_bits_count(),
            forall|i: int| 0 <= i < r@.len() ==> !r@[i],
    {
        let n = match circuit.classical_bits {
            Some(b) => b,
            None => circuit.qubits,
        };
        let mut r: Vec<bool> = Vec::new();
        while r.len() < n
            invariant
                r@.len() <= n,
                forall|i: int| 0 <= i < r@.len() ==> !r@[i],
            decreases n - r@.len(),
        {
            r.push(false);
        }
        r
    }

    /// Noise applied after a gate: none when noise is off or no target is
    /// given; else its own noise, or else the circuit's global noise.
    pub fn noise_for<'a>(&self, gate: &'a GateInstruction, circuit: &'a Circuit) -> (r: Option<
        &'a NoiseConfig,
    >)
        ensures
            opt_noise_view(
                match r {
                    Some(n) => Some(*n),
                    None => None,
                },
            ) == (if !self.configuration().apply_noise || gate.target is None {
                None
            } else if gate.noise is Some {
                opt_noise_view(gate.noise)
            } else {
                opt_noise_view(circuit.global_noise)
            }),
    {
        if !self.config.apply_noise || gate.target.is_none() {
            return None;
        }
        match &gate.noise {
            Some(n) => Some(n),
            None => match &circuit.global_noise {
                Some(n) => Some(n),
                None => None,
            },
        }
    }
}

// ---------------------------------------------------------------------------
// Laws

/// `op` applies the single-qubit matrix `m` to qubit `t`: directly when `cs`
/// is empty, else where all of the controls `cs` are |1>.
pub open spec fn applies_matrix(op: OperationSpec, m: MatrixGate, cs: Seq<usize>, t: usize) -> bool {
    match op {
        OperationSpec::Single { gate, target } => cs.len() == 0 && gate == m && target == t,
        OperationSpec::Controlled { gate, controls, target } => cs.len() > 0 && controls == cs
            && gate == m && target == t,
        _ => false,
    }
}

/// Every gate name stands for the operation of that name, on its own qubits:
/// X, Y, Z, H, S and T apply that fixed matrix, RX, RY and RZ rotate about
/// that axis by its angle, CNOT, CZ, CP and CCX act with its controls, SWAP
/// exchanges its two qubits, MEASURE, RESET, BARRIER and UNITARY do what they
/// say; an unknown name, or a missing target where one is needed, stands for
/// nothing.
pub proof fn lemma_operation_follows_name(u: Seq<char>, g: GateSpec)
    ensures
        ({
            let k = gate_kind_named(u);
            let cs = g.resolved_controls();
            let r = operation_named(u, g);
            let t = g.target->0;
            &&& k == GateKind::X && g.target is Some ==> r is Some && applies_matrix(
                r->0,
                MatrixGate::Fixed(FixedGate::X),
                cs,
                t,
            )
            &&& k == GateKind::Y && g.target is Some ==> r is Some && applies_matrix(
                r->0,
                MatrixGate::Fixed(FixedGate::Y),
                cs,
                t,
            )
            &&& k == GateKind::Z && g.target is Some ==> r is Some && applies_matrix(
                r->0,
                MatrixGate::Fixed(FixedGate::Z),
                cs,
                t,
            )
            &&& k == GateKind::H && g.target is Some ==> r is Some && applies_matrix(
                r->0,
                MatrixGate::Fixed(FixedGate::H),
                cs,
                t,
            )
            &&& k == GateKind::S && g.target is Some ==> r is Some && applies_matrix(
                r->0,
                MatrixGate::Fixed(FixedGate::S),
                cs,
                t,
            )
            &&& k == GateKind::T && g.target is Some ==> r is Some && applies_matrix(
                r->0,
                MatrixGate::Fixed(FixedGate::T),
                cs,
                t,
            )
            &&& k == GateKind::Rx && g.target is Some && g.parameter is Some ==> r is Some
                && applies_matrix(r->0, MatrixGate::Rotation(Axis::X, g.parameter->0), cs, t)
            &&& k == GateKind::Ry && g.target is Some && g.parameter is Some ==> r is Some
                && applies_matrix(r->0, MatrixGate::Rotation(Axis::Y, g.parameter->0), cs, t)
            &&& k == GateKind::Rz && g.target is Some && g.parameter is Some ==> r is Some
                && applies_matrix(r->0, MatrixGate::Rotation(Axis::Z, g.parameter->0), cs, t)
            &&& k == GateKind::Cnot && g.target is Some && cs.len() == 1 ==> r == Some(
                OperationSpec::Cnot { control: cs[0], target: t },
            )
            &&& k == GateKind::Cz && g.target is Some && cs.len() == 1 ==> r == Some(
                OperationSpec::Cz { control: cs[0], target: t },
            )
            &&& k == GateKind::Cp && g.target is Some && g.parameter is Some && cs.len() == 1 ==> r
                == Some(OperationSpec::Cp { control: cs[0], target: t, angle: g.parameter->0 })
            &&& k == GateKind::Ccx && g.target is Some && cs.len() == 2 ==> r == Some(
                OperationSpec::Ccx { control1: cs[0], control2: cs[1], target: t },
            )
            &&& k == GateKind::Swap && g.control is Some && g.target is Some ==> r == Some(
                OperationSpec::Swap { qubit1: g.control->0, qubit2: t },
            )
            &&& k == GateKind::Measure && g.target is Some ==> r == Some(
                OperationSpec::Measure {
                    target: t,
                    cbit: if g.cbit is Some {
                        g.cbit->0
                    } else {
                        t
                    },
                },
            )
            &&& k == GateKind::Reset && g.target is Some ==> r == Some(
                OperationSpec::Reset { target: t },
            )
            &&& k == GateKind::Barrier ==> r == Some(OperationSpec::Barrier)
            &&& k == GateKind::Unitary && g.target is Some && g.matrix is Some ==> r is Some
                && applies_matrix(r->0, MatrixGate::Custom(g.matrix->0), cs, t)
            &&& k == GateKind::Unknown ==> r is None
            &&& k != GateKind::Barrier && k != GateKind::Swap && g.target is None ==> r is None
        }),
{
}

/// A gate that passes validation can be run: its condition reads a bit of
/// the classical register, it stands for an operation, and a measurement
/// writes inside the register.
pub proof fn lemma_valid_gate_runs(c: CircuitSpec, g: GateSpec, classical: Seq<bool>)
    requires
        gate_fault(c, g) is None,
        classical.len() == c.classical_bits_count(),
    ensures
        condition_holds(g.condition, classical) is Some,
        operation_of(g) is Some,
        operation_of(g) matches Some(OperationSpec::Measure { target, cbit }) ==> cbit
            < classical.len(),
{
}

} // verus!
