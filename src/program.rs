use crate::instruction::{
    apply_spec, field_distance, Executable, Instruction, InstructionGenerateParams,
};
use crate::random::{below, two_distinct_below};
use crate::registers::{zeroes, RegisterValue, Registers};
use rand::rngs::StdRng;
use vstd::prelude::*;

verus! {

/// A program's score; higher is better.
pub type FitnessScore = i64;

/// The order on cached scores: an unevaluated program is below every
/// evaluated one.
pub open spec fn fitness_le(a: Option<FitnessScore>, b: Option<FitnessScore>) -> bool {
    match (a, b) {
        (None, _) => true,
        (Some(_), None) => false,
        (Some(x), Some(y)) => x <= y,
    }
}

pub fn fitness_le_exec(a: Option<FitnessScore>, b: Option<FitnessScore>) -> (r: bool)
    ensures
        r == fitness_le(a, b),
{
    match (a, b) {
        (None, _) => true,
        (Some(_), None) => false,
        (Some(x), Some(y)) => x <= y,
    }
}

/// The register bank after running `instructions` in order from `registers`.
pub open spec fn run_spec(
    instructions: Seq<Instruction>,
    registers: Seq<RegisterValue>,
    input: Seq<RegisterValue>,
) -> Seq<RegisterValue>
    decreases instructions.len(),
{
    if instructions.len() == 0 {
        registers
    } else {
        apply_spec(
            instructions.last(),
            run_spec(instructions.drop_last(), registers, input),
            input,
        )
    }
}

pub proof fn lemma_run_keeps_length(
    instructions: Seq<Instruction>,
    registers: Seq<RegisterValue>,
    input: Seq<RegisterValue>,
)
    requires
        registers.len() > 0,
    ensures
        run_spec(instructions, registers, input).len() == registers.len(),
    decreases instructions.len(),
{
    if instructions.len() > 0 {
        lemma_run_keeps_length(instructions.drop_last(), registers, input);
    }
}

/// Running a program depends on its instructions, its register bank and the
/// input alone: two runs on the same input agree, whatever fitness is cached.
pub proof fn lemma_exec_pure(p: Program, q: Program, input: Seq<RegisterValue>)
    requires
        p.instructions@ == q.instructions@,
        p.registers@ == q.registers@,
    ensures
        run_spec(p.instructions@, p.registers@, input) == run_spec(q.instructions@, q.registers@, input),
        p.registers@.len() > 0 ==> run_spec(p.instructions@, p.registers@, input).len() == p.registers@.len(),
{
    if p.registers@.len() > 0 {
        lemma_run_keeps_length(p.instructions@, p.registers@, input);
    }
}

/// `s` cut down to at most `max` items.
pub open spec fn cap_len<A>(s: Seq<A>, max: nat) -> Seq<A> {
    if s.len() > max {
        s.take(max as int)
    } else {
        s
    }
}

/// `a` with its segment `[i1, i2)` replaced by the segment `[j1, j2)` of `b`,
/// cut to at most `max` instructions.
pub open spec fn splice_spec(
    a: Seq<Instruction>,
    b: Seq<Instruction>,
    i1: int,
    i2: int,
    j1: int,
    j2: int,
    max: nat,
) -> Seq<Instruction> {
    cap_len(a.subrange(0, i1) + b.subrange(j1, j2) + a.subrange(i2, a.len() as int), max)
}

/// `x` is an instruction of `a` or of `b`.
pub open spec fn from_parents(x: Instruction, a: Seq<Instruction>, b: Seq<Instruction>) -> bool {
    exists|q: int| #![trigger a[q]] #![trigger b[q]] (0 <= q < a.len() && a[q] == x) || (0 <= q < b.len() && b[q] == x)
}

proof fn lemma_from_first(x: Instruction, a: Seq<Instruction>, b: Seq<Instruction>, q: int)
    requires
        0 <= q < a.len(),
        a[q] == x,
    ensures
        from_parents(x, a, b),
{
}

proof fn lemma_from_second(x: Instruction, a: Seq<Instruction>, b: Seq<Instruction>, q: int)
    requires
        0 <= q < b.len(),
        b[q] == x,
    ensures
        from_parents(x, a, b),
{
}

/// An instruction taken from two parents whose instructions are all valid
/// for `p` is valid for `p`.
pub proof fn lemma_from_parents_valid(
    x: Instruction,
    a: Seq<Instruction>,
    b: Seq<Instruction>,
    p: InstructionGenerateParams,
)
    requires
        from_parents(x, a, b),
        forall|k: int| 0 <= k < a.len() ==> (#[trigger] a[k]).is_valid(p),
        forall|k: int| 0 <= k < b.len() ==> (#[trigger] b[k]).is_valid(p),
    ensures
        x.is_valid(p),
{
    let q = choose|q: int| #![trigger a[q]] #![trigger b[q]] (0 <= q < a.len() && a[q] == x) || (0 <= q < b.len() && b[q] == x);
    if 0 <= q < a.len() && a[q] == x {
        assert(a[q].is_valid(p));
    } else {
        assert(b[q].is_valid(p));
    }
}

/// Every instruction of a crossover child is an instruction of one of its
/// parents: crossover invents none.
pub proof fn lemma_splice_from_parents(
    a: Seq<Instruction>,
    b: Seq<Instruction>,
    i1: int,
    i2: int,
    j1: int,
    j2: int,
    max: nat,
)
    requires
        0 <= i1 <= i2 <= a.len(),
        0 <= j1 <= j2 <= b.len(),
    ensures
        splice_spec(a, b, i1, i2, j1, j2, max).len() <= max,
        forall|k: int|
            0 <= k < splice_spec(a, b, i1, i2, j1, j2, max).len() ==> from_parents(
                #[trigger] splice_spec(a, b, i1, i2, j1, j2, max)[k],
                a,
                b,
            ),
{
    let whole = a.subrange(0, i1) + b.subrange(j1, j2) + a.subrange(i2, a.len() as int);
    let child = splice_spec(a, b, i1, i2, j1, j2, max);
    assert forall|k: int| 0 <= k < child.len() implies from_parents(#[trigger] child[k], a, b) by {
        assert(child[k] == whole[k]);
        let first = i1;
        let middle = i1 + (j2 - j1);
        if k < first {
            assert(a[k] == whole[k]);
            lemma_from_first(child[k], a, b, k);
        } else if k < middle {
            assert(b[j1 + (k - first)] == whole[k]);
            lemma_from_second(child[k], a, b, j1 + (k - first));
        } else {
            assert(a[i2 + (k - middle)] == whole[k]);
            lemma_from_first(child[k], a, b, i2 + (k - middle));
        }
    }
}

/// `x` and `y` are the two children of crossing `a` with `b` at some cut
/// points, two distinct points in each non-empty parent.
pub open spec fn crossover_children(
    a: Seq<Instruction>,
    b: Seq<Instruction>,
    x: Seq<Instruction>,
    y: Seq<Instruction>,
    max: nat,
) -> bool {
    exists|c: (usize, usize), d: (usize, usize)|
        {
            &&& valid_cuts(c, a.len())
            &&& valid_cuts(d, b.len())
            &&& (a.len() > 0 ==> c.0 < c.1)
            &&& (b.len() > 0 ==> d.0 < d.1)
            &&& x == splice_spec(a, b, c.0 as int, c.1 as int, d.0 as int, d.1 as int, max)
            &&& y == splice_spec(b, a, d.0 as int, d.1 as int, c.0 as int, c.1 as int, max)
        }
}

/// The children of a crossover are also those of the crossover of the
/// parents the other way round, with the children swapped.
pub proof fn lemma_crossover_children_swap(
    a: Seq<Instruction>,
    b: Seq<Instruction>,
    x: Seq<Instruction>,
    y: Seq<Instruction>,
    max: nat,
)
    requires
        crossover_children(a, b, x, y, max),
    ensures
        crossover_children(b, a, y, x, max),
{
    let (c, d) = choose|c: (usize, usize), d: (usize, usize)|
        {
            &&& valid_cuts(c, a.len())
            &&& valid_cuts(d, b.len())
            &&& (a.len() > 0 ==> c.0 < c.1)
            &&& (b.len() > 0 ==> d.0 < d.1)
            &&& x == splice_spec(a, b, c.0 as int, c.1 as int, d.0 as int, d.1 as int, max)
            &&& y == splice_spec(b, a, d.0 as int, d.1 as int, c.0 as int, c.1 as int, max)
        };
    assert(valid_cuts(d, b.len()) && valid_cuts(c, a.len()) && (b.len() > 0 ==> d.0 < d.1) && (a.len()
        > 0 ==> c.0 < c.1) && y == splice_spec(b, a, d.0 as int, d.1 as int, c.0 as int, c.1 as int, max)
        && x == splice_spec(a, b, c.0 as int, c.1 as int, d.0 as int, d.1 as int, max));
}

/// No crossover child holds an instruction that neither parent holds, and
/// none is longer than the cap.
pub proof fn lemma_crossover_invents_nothing(
    a: Seq<Instruction>,
    b: Seq<Instruction>,
    x: Seq<Instruction>,
    y: Seq<Instruction>,
    max: nat,
)
    requires
        crossover_children(a, b, x, y, max),
    ensures
        x.len() <= max,
        y.len() <= max,
        forall|k: int| 0 <= k < x.len() ==> from_parents(#[trigger] x[k], a, b),
        forall|k: int| 0 <= k < y.len() ==> from_parents(#[trigger] y[k], a, b),
{
    let (c, d) = choose|c: (usize, usize), d: (usize, usize)|
        {
            &&& valid_cuts(c, a.len())
            &&& valid_cuts(d, b.len())
            &&& (a.len() > 0 ==> c.0 < c.1)
            &&& (b.len() > 0 ==> d.0 < d.1)
            &&& x == splice_spec(a, b, c.0 as int, c.1 as int, d.0 as int, d.1 as int, max)
            &&& y == splice_spec(b, a, d.0 as int, d.1 as int, c.0 as int, c.1 as int, max)
        };
    lemma_splice_from_parents(a, b, c.0 as int, c.1 as int, d.0 as int, d.1 as int, max);
    lemma_splice_from_parents(b, a, d.0 as int, d.1 as int, c.0 as int, c.1 as int, max);
    assert forall|k: int| 0 <= k < y.len() implies from_parents(#[trigger] y[k], a, b) by {
        assert(from_parents(y[k], b, a));
        let q = choose|q: int| #![trigger b[q]] #![trigger a[q]] (0 <= q < b.len() && b[q] == y[k]) || (0 <= q < a.len() && a[q] == y[k]);
        if 0 <= q < b.len() && b[q] == y[k] {
            lemma_from_second(y[k], a, b, q);
        } else {
            lemma_from_first(y[k], a, b, q);
        }
    }
}

/// Valid cut points `c.0 <= c.1` into a sequence of length `len`.
pub open spec fn valid_cuts(c: (usize, usize), len: nat) -> bool {
    c.0 <= c.1 <= len
}

/// The shape of the programs to generate and the operations they may use.
#[derive(Clone, Debug)]
pub struct ProgramGenerateParams {
    pub max_instructions: usize,
    /// Registers read as the program's answer, at the front of the bank.
    pub n_action_registers: usize,
    /// Registers sized after the task input, at the back of the bank.
    pub n_input_registers: usize,
    pub executables: Vec<Executable>,
}

impl ProgramGenerateParams {
    pub open spec fn wf(&self) -> bool {
        &&& self.n_input_registers > 0
        &&& self.n_action_registers + self.n_input_registers <= usize::MAX
        &&& self.executables@.len() > 0
        &&& self.max_instructions < usize::MAX
    }

    pub open spec fn n_registers(&self) -> nat {
        (self.n_action_registers + self.n_input_registers) as nat
    }

    /// What each instruction of a generated program is drawn for.
    pub open spec fn instruction_params_spec(&self) -> InstructionGenerateParams {
        InstructionGenerateParams {
            n_registers: (self.n_action_registers + self.n_input_registers) as usize,
            n_inputs: self.n_input_registers,
            executables: self.executables,
        }
    }

    pub fn instruction_params(&self) -> (r: InstructionGenerateParams)
        requires
            self.wf(),
        ensures
            r.n_registers == self.instruction_params_spec().n_registers,
            r.n_inputs == self.instruction_params_spec().n_inputs,
            r.executables@ == self.executables@,
            r.wf(),
    {
        let mut executables: Vec<Executable> = Vec::new();
        let mut index: usize = 0;
        while index < self.executables.len()
            invariant
                0 <= index <= self.executables@.len(),
                executables@ == self.executables@.take(index as int),
            decreases self.executables@.len() - index,
        {
            executables.push(self.executables[index]);
            index = index + 1;
            proof {
                assert(executables@ =~= self.executables@.take(index as int));
            }
        }
        proof {
            assert(executables@ =~= self.executables@);
        }
        InstructionGenerateParams {
            n_registers: self.n_action_registers + self.n_input_registers,
            n_inputs: self.n_input_registers,
            executables,
        }
    }
}

/// An ordered sequence of instructions with its own register bank and its
/// cached fitness.
#[derive(Clone, Debug, PartialEq, Eq)]
pub struct Program {
    pub instructions: Vec<Instruction>,
    pub registers: Registers,
    pub fitness: Option<FitnessScore>,
}

/// A copy of `v[start..end)`.
pub fn copy_range(v: &Vec<Instruction>, start: usize, end: usize) -> (r: Vec<Instruction>)
    requires
        start <= end <= v@.len(),
    ensures
        r@ == v@.subrange(start as int, end as int),
{
    let mut out: Vec<Instruction> = Vec::new();
    let mut index: usize = start;
    while index < end
        invariant
            start <= index <= end <= v@.len(),
            out@ == v@.subrange(start as int, index as int),
        decreases end - index,
    {
        out.push(v[index]);
        index = index + 1;
        proof {
            assert(out@ =~= v@.subrange(start as int, index as int));
        }
    }
    out
}

/// Appends `v[start..end)` to `out`.
fn extend_range(out: &mut Vec<Instruction>, v: &Vec<Instruction>, start: usize, end: usize)
    requires
        start <= end <= v@.len(),
    ensures
        final(out)@ == old(out)@ + v@.subrange(start as int, end as int),
{
    let ghost before = old(out)@;
    let mut index: usize = start;
    while index < end
        invariant
            start <= index <= end <= v@.len(),
            out@ == before + v@.subrange(start as int, index as int),
        decreases end - index,
    {
        out.push(v[index]);
        index = index + 1;
        proof {
            assert(out@ =~= before + v@.subrange(start as int, index as int));
        }
    }
}

/// Draws two cut points into a sequence of length `len`: equal (an empty
/// segment) when it is empty, else two distinct points of `0..=len` in order.
fn draw_cut_points(len: usize, rng: &mut StdRng) -> (r: (usize, usize))
    requires
        len < usize::MAX,
    ensures
        valid_cuts(r, len as nat),
        len > 0 ==> r.0 < r.1,
{
    if len == 0 {
        (0, 0)
    } else {
        let (x, y) = two_distinct_below(rng, len + 1);
        if x < y {
            (x, y)
        } else {
            (y, x)
        }
    }
}

impl Program {
    /// Each instruction uses only operations and registers of `params`.
    pub open spec fn instructions_valid(&self, params: ProgramGenerateParams) -> bool {
        forall|k: int|
            0 <= k < self.instructions@.len() ==> (#[trigger] self.instructions@[k]).is_valid(
                params.instruction_params_spec(),
            )
    }

    /// The program was made for `params`: not too long, valid instructions,
    /// and a register bank of the right size.
    pub open spec fn fits(&self, params: ProgramGenerateParams) -> bool {
        &&& self.instructions@.len() <= params.max_instructions
        &&& self.instructions_valid(params)
        &&& self.registers@.len() == params.n_registers()
    }

    /// Draws a length uniformly in `[0, max_instructions]` and that many
    /// instructions; the register bank is zeroed and no fitness is cached.
    pub fn generate(params: &ProgramGenerateParams, rng: &mut StdRng) -> (r: Program)
        requires
            params.wf(),
        ensures
            r.fits(*params),
            r.registers@ == zeroes(params.n_registers()),
            r.fitness.is_none(),
            forall|k: int|
                0 <= k < r.instructions@.len() ==> (#[trigger] r.instructions@[k]).src
                    < params.instruction_params_spec().operand_len(r.instructions@[k].mode),
    {
        let instruction_params = params.instruction_params();
        let n_instructions = below(rng, params.max_instructions + 1);
        let mut instructions: Vec<Instruction> = Vec::new();
        let mut count: usize = 0;
        while count < n_instructions
            invariant
                count <= n_instructions <= params.max_instructions,
                instructions@.len() == count,
                instruction_params.wf(),
                instruction_params.n_registers == params.instruction_params_spec().n_registers,
                instruction_params.n_inputs == params.instruction_params_spec().n_inputs,
                instruction_params.executables@ == params.executables@,
                forall|k: int|
                    0 <= k < instructions@.len() ==> (#[trigger] instructions@[k]).is_valid(
                        params.instruction_params_spec(),
                    ),
                forall|k: int|
                    0 <= k < instructions@.len() ==> (#[trigger] instructions@[k]).src
                        < params.instruction_params_spec().operand_len(instructions@[k].mode),
            decreases n_instructions - count,
        {
            let ins = Instruction::generate(&instruction_params, rng);
            instructions.push(ins);
            count = count + 1;
        }
        let registers = Registers::new(params.n_action_registers + params.n_input_registers);
        Program { instructions, registers, fitness: None }
    }

    /// Runs every instruction in order on a copy of the program's registers
    /// and returns the resulting bank; the program itself is left as it is.
    pub fn exec(&self, input: &Vec<RegisterValue>) -> (r: Registers)
        requires
            self.registers@.len() > 0,
        ensures
            r@ == run_spec(self.instructions@, self.registers@, input@),
    {
        let start = Registers::from(self.registers.slice(0, self.registers.len()));
        proof {
            assert(self.registers@.subrange(0, self.registers@.len() as int) =~= self.registers@);
        }
        self.run_from(start, input)
    }

    /// Runs every instruction in order on a zeroed bank the size of the
    /// program's own and returns the resulting bank.
    pub fn exec_zeroed(&self, input: &Vec<RegisterValue>) -> (r: Registers)
        requires
            self.registers@.len() > 0,
        ensures
            r@ == run_spec(self.instructions@, zeroes(self.registers@.len()), input@),
    {
        let start = Registers::new(self.registers.len());
        self.run_from(start, input)
    }

    fn run_from(&self, start: Registers, input: &Vec<RegisterValue>) -> (r: Registers)
        requires
            start@.len() > 0,
        ensures
            r@ == run_spec(self.instructions@, start@, input@),
    {
        let ghost initial = start@;
        let mut registers = start;
        proof {
            assert(self.instructions@.take(0) =~= Seq::<Instruction>::empty());
        }
        let mut index: usize = 0;
        while index < self.instructions.len()
            invariant
                0 <= index <= self.instructions@.len(),
                initial.len() > 0,
                registers@ == run_spec(self.instructions@.take(index as int), initial, input@),
            decreases self.instructions@.len() - index,
        {
            proof {
                lemma_run_keeps_length(self.instructions@.take(index as int), initial, input@);
            }
            self.instructions[index].apply(&mut registers, input);
            proof {
                let next = self.instructions@.take(index + 1);
                assert(next.drop_last() =~= self.instructions@.take(index as int));
                assert(next.last() == self.instructions@[index as int]);
            }
            index = index + 1;
        }
        proof {
            assert(self.instructions@.take(self.instructions@.len() as int) =~= self.instructions@);
        }
        registers
    }

    /// A copy of the program whose cached fitness is cleared.
    pub fn offspring_copy(&self) -> (r: Program)
        ensures
            r.instructions@ == self.instructions@,
            r.registers@ == self.registers@,
            r.fitness.is_none(),
    {
        let instructions = copy_range(&self.instructions, 0, self.instructions.len());
        let registers = Registers::from(self.registers.slice(0, self.registers.len()));
        proof {
            assert(self.instructions@.subrange(0, self.instructions@.len() as int) =~= self.instructions@);
            assert(self.registers@.subrange(0, self.registers@.len() as int) =~= self.registers@);
        }
        Program { instructions, registers, fitness: None }
    }

    /// A copy in which one uniformly chosen instruction has one field
    /// redrawn; the cached fitness is cleared. A program without
    /// instructions is copied unchanged but for its fitness.
    pub fn mutate(&self, params: &ProgramGenerateParams, rng: &mut StdRng) -> (r: Program)
        requires
            params.wf(),
            self.instructions_valid(*params),
        ensures
            r.instructions@.len() == self.instructions@.len(),
            r.registers@ == self.registers@,
            r.fitness.is_none(),
            r.instructions_valid(*params),
            forall|k: int|
                0 <= k < r.instructions@.len() ==> field_distance(
                    self.instructions@[k],
                    #[trigger] r.instructions@[k],
                ) <= 1,
            forall|k: int, l: int|
                0 <= k < l < r.instructions@.len() ==> self.instructions@[k]
                    == #[trigger] r.instructions@[k] || self.instructions@[l]
                    == #[trigger] r.instructions@[l],
    {
        let mut child = self.offspring_copy();
        let n = child.instructions.len();
        if n > 0 {
            let instruction_params = params.instruction_params();
            let index = below(rng, n);
            proof {
                assert(self.instructions@[index as int].is_valid(params.instruction_params_spec()));
                assert(params.instruction_params_spec().executables@ == instruction_params.executables@);
            }
            let mutated = child.instructions[index].mutate(&instruction_params, rng);
            child.instructions.set(index, mutated);
            proof {
                assert forall|k: int|
                    0 <= k < child.instructions@.len() implies field_distance(
                    self.instructions@[k],
                    #[trigger] child.instructions@[k],
                ) <= 1 by {
                    if k != index {
                        assert(child.instructions@[k] == self.instructions@[k]);
                    }
                }
            }
        }
        child
    }

    /// The two children of crossing `self` and `other` at the given cut
    /// points: each parent's segment is replaced by the other's, and a child
    /// longer than `max_instructions` loses its tail. Each child keeps the
    /// register bank of the parent it starts from; no fitness is cached.
    pub fn two_point_crossover_at(
        &self,
        other: &Program,
        self_cuts: (usize, usize),
        other_cuts: (usize, usize),
        max_instructions: usize,
    ) -> (r: (Program, Program))
        requires
            valid_cuts(self_cuts, self.instructions@.len()),
            valid_cuts(other_cuts, other.instructions@.len()),
        ensures
            r.0.instructions@ == splice_spec(
                self.instructions@,
                other.instructions@,
                self_cuts.0 as int,
                self_cuts.1 as int,
                other_cuts.0 as int,
                other_cuts.1 as int,
                max_instructions as nat,
            ),
            r.1.instructions@ == splice_spec(
                other.instructions@,
                self.instructions@,
                other_cuts.0 as int,
                other_cuts.1 as int,
                self_cuts.0 as int,
                self_cuts.1 as int,
                max_instructions as nat,
            ),
            r.0.registers@ == self.registers@,
            r.1.registers@ == other.registers@,
            r.0.fitness.is_none(),
            r.1.fitness.is_none(),
    {
        let a = &self.instructions;
        let b = &other.instructions;
        let (i1, i2) = self_cuts;
        let (j1, j2) = other_cuts;
        let mut first = copy_range(a, 0, i1);
        extend_range(&mut first, b, j1, j2);
        extend_range(&mut first, a, i2, a.len());
        if first.len() > max_instructions {
            first.truncate(max_instructions);
        }
        let mut second = copy_range(b, 0, j1);
        extend_range(&mut second, a, i1, i2);
        extend_range(&mut second, b, j2, b.len());
        if second.len() > max_instructions {
            second.truncate(max_instructions);
        }
        proof {
            assert(first@ =~= splice_spec(a@, b@, i1 as int, i2 as int, j1 as int, j2 as int, max_instructions as nat));
            assert(second@ =~= splice_spec(b@, a@, j1 as int, j2 as int, i1 as int, i2 as int, max_instructions as nat));
            assert(self.registers@.subrange(0, self.registers@.len() as int) =~= self.registers@);
            assert(other.registers@.subrange(0, other.registers@.len() as int) =~= other.registers@);
        }
        let first_registers = Registers::from(self.registers.slice(0, self.registers.len()));
        let second_registers = Registers::from(other.registers.slice(0, other.registers.len()));
        (
            Program { instructions: first, registers: first_registers, fitness: None },
            Program { instructions: second, registers: second_registers, fitness: None },
        )
    }

    /// Two-point crossover at cut points drawn uniformly: two distinct points
    /// in each non-empty parent, an empty segment in an empty one.
    pub fn two_point_crossover(
        &self,
        other: &Program,
        max_instructions: usize,
        rng: &mut StdRng,
    ) -> (r: (Program, Program))
        requires
            self.instructions@.len() < usize::MAX,
            other.instructions@.len() < usize::MAX,
        ensures
            crossover_children(
                self.instructions@,
                other.instructions@,
                r.0.instructions@,
                r.1.instructions@,
                max_instructions as nat,
            ),
            r.0.registers@ == self.registers@,
            r.1.registers@ == other.registers@,
            r.0.fitness.is_none(),
            r.1.fitness.is_none(),
    {
        let self_cuts = draw_cut_points(self.instructions.len(), rng);
        let other_cuts = draw_cut_points(other.instructions.len(), rng);
        self.two_point_crossover_at(other, self_cuts, other_cuts, max_instructions)
    }
}

} // verus!
