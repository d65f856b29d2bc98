use crate::random::below;
use crate::registers::{RegisterValue, Registers};
use rand::rngs::StdRng;
use vstd::prelude::*;

verus! {

/// The divisor that protected division uses in place of zero.
pub const DIVIDE_BY_ZERO_SUBSTITUTE: i64 = 2;

/// Where an instruction reads its source operand.
#[derive(Clone, Copy, Debug, PartialEq, Eq, Structural, PartialOrd, Ord, Hash)]
pub enum Mode {
    /// The current task input's feature vector.
    External,
    /// The register bank.
    Internal,
}

/// The operations an instruction may perform.
#[derive(Clone, Copy, Debug, PartialEq, Eq, Structural, PartialOrd, Ord, Hash)]
pub enum Executable {
    Add,
    Subtract,
    Multiply,
    Divide,
}

/// `x` brought into the range of `i64` by saturation.
pub open spec fn saturate_spec(x: int) -> RegisterValue {
    if x > i64::MAX {
        i64::MAX
    } else if x < i64::MIN {
        i64::MIN
    } else {
        x as i64
    }
}

pub open spec fn abs_spec(x: int) -> nat {
    if x < 0 {
        (-x) as nat
    } else {
        x as nat
    }
}

/// Division rounding toward zero.
pub open spec fn truncated_div(a: int, d: int) -> int {
    if (a < 0) != (d < 0) {
        -((abs_spec(a) / abs_spec(d)) as int)
    } else {
        (abs_spec(a) / abs_spec(d)) as int
    }
}

impl Executable {
    /// What the operation yields on the target value `a` and the operand `b`.
    pub open spec fn eval_spec(self, a: RegisterValue, b: RegisterValue) -> RegisterValue {
        match self {
            Executable::Add => saturate_spec(a + b),
            Executable::Subtract => saturate_spec(a - b),
            Executable::Multiply => saturate_spec(a * b),
            Executable::Divide => {
                let d = if b == 0 {
                    DIVIDE_BY_ZERO_SUBSTITUTE
                } else {
                    b
                };
                saturate_spec(truncated_div(a as int, d as int))
            },
        }
    }

    pub fn eval(self, a: RegisterValue, b: RegisterValue) -> (r: RegisterValue)
        ensures
            r == self.eval_spec(a, b),
    {
        match self {
            Executable::Add => saturate(a as i128 + b as i128),
            Executable::Subtract => saturate(a as i128 - b as i128),
            Executable::Multiply => {
                proof {
                    let m: int = 0x8000_0000_0000_0000;
                    assert(-m * m <= a * b <= m * m) by (nonlinear_arith)
                        requires -m <= a <= m, -m <= b <= m;
                }
                saturate(a as i128 * b as i128)
            },
            Executable::Divide => {
                let d: i64 = if b == 0 {
                    DIVIDE_BY_ZERO_SUBSTITUTE
                } else {
                    b
                };
                let wide_a = a as i128;
                let wide_d = d as i128;
                let mag_a: u128 = if wide_a < 0 {
                    (-wide_a) as u128
                } else {
                    wide_a as u128
                };
                let mag_d: u128 = if wide_d < 0 {
                    (-wide_d) as u128
                } else {
                    wide_d as u128
                };
                let q: u128 = mag_a / mag_d;
                proof {
                    assert(q <= mag_a) by (nonlinear_arith)
                        requires q == mag_a / mag_d, mag_d > 0;
                }
                let signed_q = q as i128;
                if (wide_a < 0) != (wide_d < 0) {
                    saturate(-signed_q)
                } else {
                    saturate(signed_q)
                }
            },
        }
    }
}

fn saturate(x: i128) -> (r: RegisterValue)
    ensures
        r == saturate_spec(x as int),
{
    if x > i64::MAX as i128 {
        i64::MAX
    } else if x < i64::MIN as i128 {
        i64::MIN
    } else {
        x as i64
    }
}

/// One register-machine instruction: `registers[dst] = op(registers[dst], operand)`,
/// where the operand is `src` of the input (External) or of the registers
/// (Internal), each index taken modulo the length of the space it reads.
#[derive(Clone, Copy, Debug, PartialEq, Eq, Structural, PartialOrd, Ord, Hash)]
pub struct Instruction {
    pub op: Executable,
    pub mode: Mode,
    pub src: usize,
    pub dst: usize,
}

/// The shape an instruction is drawn for.
#[derive(Clone, Debug)]
pub struct InstructionGenerateParams {
    /// Length of the register bank.
    pub n_registers: usize,
    /// Length of a task input's feature vector.
    pub n_inputs: usize,
    /// The operations to draw from.
    pub executables: Vec<Executable>,
}

impl InstructionGenerateParams {
    pub open spec fn wf(&self) -> bool {
        &&& 0 < self.n_inputs <= self.n_registers
        &&& self.executables@.len() > 0
    }

    /// Length of the operand space that `mode` reads.
    pub open spec fn operand_len(&self, mode: Mode) -> nat {
        match mode {
            Mode::External => self.n_inputs as nat,
            Mode::Internal => self.n_registers as nat,
        }
    }
}

/// The number of fields in which two instructions differ.
pub open spec fn field_distance(a: Instruction, b: Instruction) -> nat {
    (if a.op != b.op { 1nat } else { 0nat }) + (if a.mode != b.mode { 1nat } else { 0nat }) + (
    if a.src != b.src { 1nat } else { 0nat }) + (if a.dst != b.dst { 1nat } else { 0nat })
}

/// The operand that `ins` reads; an empty input reads as zero.
pub open spec fn operand_spec(ins: Instruction, registers: Seq<RegisterValue>, input: Seq<RegisterValue>) -> RegisterValue {
    match ins.mode {
        Mode::External => if input.len() == 0 {
            0
        } else {
            input[(ins.src as int) % (input.len() as int)]
        },
        Mode::Internal => registers[(ins.src as int) % (registers.len() as int)],
    }
}

/// The register bank after `ins` runs on `registers` with `input`.
pub open spec fn apply_spec(ins: Instruction, registers: Seq<RegisterValue>, input: Seq<RegisterValue>) -> Seq<RegisterValue> {
    let target = (ins.dst as int) % (registers.len() as int);
    registers.update(target, ins.op.eval_spec(registers[target], operand_spec(ins, registers, input)))
}

impl Instruction {
    /// The instruction only uses operations of `params` and, read with or
    /// without the modulo, indices within the register bank.
    pub open spec fn is_valid(&self, params: InstructionGenerateParams) -> bool {
        &&& params.executables@.contains(self.op)
        &&& self.src < params.n_registers
        &&& self.dst < params.n_registers
    }

    /// Draws a uniform operation, mode, target register, and a source index
    /// uniform over the operand space of the drawn mode.
    pub fn generate(params: &InstructionGenerateParams, rng: &mut StdRng) -> (r: Instruction)
        requires
            params.wf(),
        ensures
            r.is_valid(*params),
            r.src < params.operand_len(r.mode),
    {
        let op = params.executables[below(rng, params.executables.len())];
        let mode = if below(rng, 2) == 0 {
            Mode::External
        } else {
            Mode::Internal
        };
        let space = match mode {
            Mode::External => params.n_inputs,
            Mode::Internal => params.n_registers,
        };
        let src = below(rng, space);
        let dst = below(rng, params.n_registers);
        Instruction { op, mode, src, dst }
    }

    /// Picks one of the four fields uniformly and redraws it alone; a source
    /// index is redrawn over the operand space of the current mode.
    pub fn mutate(&self, params: &InstructionGenerateParams, rng: &mut StdRng) -> (r: Instruction)
        requires
            params.wf(),
            self.is_valid(*params),
        ensures
            r.is_valid(*params),
            field_distance(*self, r) <= 1,
    {
        let field = below(rng, 4);
        let mut mutated = *self;
        if field == 0 {
            mutated.op = params.executables[below(rng, params.executables.len())];
        } else if field == 1 {
            mutated.mode = if below(rng, 2) == 0 {
                Mode::External
            } else {
                Mode::Internal
            };
        } else if field == 2 {
            let space = match self.mode {
                Mode::External => params.n_inputs,
                Mode::Internal => params.n_registers,
            };
            mutated.src = below(rng, space);
        } else {
            mutated.dst = below(rng, params.n_registers);
        }
        mutated
    }

    /// Runs the instruction on `registers` with the task input `input`.
    pub fn apply(&self, registers: &mut Registers, input: &Vec<RegisterValue>)
        requires
            old(registers)@.len() > 0,
        ensures
            final(registers)@ == apply_spec(*self, old(registers)@, input@),
    {
        let n = registers.len();
        let target = self.dst % n;
        let operand = match self.mode {
            Mode::External => if input.len() == 0 {
                0
            } else {
                input[self.src % input.len()]
            },
            Mode::Internal => registers.get_value_at_index(self.src % n),
        };
        let current = registers.get_value_at_index(target);
        let value = self.op.eval(current, operand);
        registers.update(target, value);
    }
}

} // verus!
