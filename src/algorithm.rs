use crate::characteristics::Fitness;
use crate::population::{is_ranked, Population};
use crate::program::fitness_le;
use crate::instruction::{field_distance, Instruction};
use crate::program::{
    lemma_crossover_children_swap,
    FitnessScore,
    crossover_children, lemma_crossover_invents_nothing, lemma_from_parents_valid, Program,
    ProgramGenerateParams,
};
use crate::random::{below, two_distinct_below};
use crate::registers::zeroes;
use rand::rngs::StdRng;
use vstd::prelude::*;

verus! {

/// A fraction `numerator / denominator` of the unit interval.
#[derive(Clone, Copy, Debug, PartialEq, Eq, Structural)]
pub struct Ratio {
    pub numerator: u64,
    pub denominator: u64,
}

impl Ratio {
    pub open spec fn wf(&self) -> bool {
        &&& self.denominator > 0
        &&& self.numerator <= self.denominator
    }

    /// `⌊self · n⌋`.
    pub open spec fn floor_of_spec(&self, n: nat) -> nat {
        (self.numerator as nat * n) / self.denominator as nat
    }

    /// `⌊(1 - self) · n⌋`.
    pub open spec fn complement_floor_of_spec(&self, n: nat) -> nat {
        ((self.denominator - self.numerator) as nat * n) / self.denominator as nat
    }

    /// `self + other <= 1`.
    pub open spec fn fits_with(&self, other: Ratio) -> bool {
        self.numerator * other.denominator + other.numerator * self.denominator
            <= self.denominator * other.denominator
    }

    pub fn floor_of(&self, n: usize) -> (r: usize)
        requires
            self.wf(),
        ensures
            r == self.floor_of_spec(n as nat),
            r <= n,
    {
        proof {
            let a = self.numerator as int;
            let d = self.denominator as int;
            let m = n as int;
            assert(a * m <= d * m) by (nonlinear_arith)
                requires a <= d, m >= 0;
            assert((a * m) / d <= (d * m) / d) by (nonlinear_arith)
                requires a * m <= d * m, d > 0;
            assert((d * m) / d == m) by (nonlinear_arith)
                requires d > 0;
            assert(a * m <= 0xffff_ffff_ffff_ffff * 0xffff_ffff_ffff_ffff) by (nonlinear_arith)
                requires 0 <= a <= 0xffff_ffff_ffff_ffff, 0 <= m <= 0xffff_ffff_ffff_ffff;
        }
        let wide = (self.numerator as u128) * (n as u128);
        (wide / (self.denominator as u128)) as usize
    }

    pub fn complement_floor_of(&self, n: usize) -> (r: usize)
        requires
            self.wf(),
        ensures
            r == self.complement_floor_of_spec(n as nat),
            r <= n,
    {
        let rest = Ratio { numerator: self.denominator - self.numerator, denominator: self.denominator };
        rest.floor_of(n)
    }
}

/// The settings of a run.
#[derive(Clone, Debug)]
pub struct HyperParameters {
    pub population_size: usize,
    /// The share of the population dropped each generation.
    pub gap: Ratio,
    /// The share of the freed places filled by mutation.
    pub n_mutations: Ratio,
    /// The share of the freed places filled by crossover.
    pub n_crossovers: Ratio,
    pub max_generations: usize,
    pub program_params: ProgramGenerateParams,
}

impl HyperParameters {
    pub open spec fn wf(&self) -> bool {
        &&& self.population_size >= 2
        &&& self.gap.wf()
        &&& self.n_mutations.wf()
        &&& self.n_crossovers.wf()
        &&& self.n_mutations.fits_with(self.n_crossovers)
        &&& self.program_params.wf()
    }

    /// Whether a run can be started with these settings: the ratios are
    /// fractions of one, mutations and crossovers share at most all freed
    /// places, at least two programs survive selection to breed from, and
    /// programs have at least one action and one input register.
    pub open spec fn can_run(&self) -> bool {
        &&& self.wf()
        &&& self.program_params.n_action_registers > 0
        &&& self.survivors() >= 2
    }

    pub fn check(&self) -> (r: bool)
        ensures
            r == self.can_run(),
    {
        let ratios_ok = self.gap.denominator > 0 && self.gap.numerator <= self.gap.denominator
            && self.n_mutations.denominator > 0 && self.n_mutations.numerator
            <= self.n_mutations.denominator && self.n_crossovers.denominator > 0
            && self.n_crossovers.numerator <= self.n_crossovers.denominator;
        if !ratios_ok {
            return false;
        }
        let m = self.n_mutations;
        let c = self.n_crossovers;
        proof {
            let big: int = 0xffff_ffff_ffff_ffff;
            assert forall|x: int, y: int| 0 <= x <= big && 0 <= y <= big implies #[trigger] (x * y)
                <= big * big by {
                assert(x * y <= big * big) by (nonlinear_arith)
                    requires 0 <= x <= big, 0 <= y <= big;
            }
            assert(m.numerator as int * c.denominator as int <= big * big);
            assert(c.numerator as int * m.denominator as int <= big * big);
            assert(m.denominator as int * c.denominator as int <= big * big);
        }
        let first = (m.numerator as u128) * (c.denominator as u128);
        let second = (c.numerator as u128) * (m.denominator as u128);
        let rhs = (m.denominator as u128) * (c.denominator as u128);
        let fits = match first.checked_add(second) {
            Some(lhs) => lhs <= rhs,
            None => false,
        };
        let params = &self.program_params;
        let params_ok = params.n_input_registers > 0 && params.n_action_registers > 0
            && params.n_action_registers <= usize::MAX - params.n_input_registers
            && params.executables.len() > 0 && params.max_instructions < usize::MAX;
        if !params_ok {
            return false;
        }
        self.population_size >= 2 && fits && self.gap.complement_floor_of(self.population_size)
            >= 2
    }

    /// How many programs survive selection.
    pub open spec fn survivors(&self) -> nat {
        self.gap.complement_floor_of_spec(self.population_size as nat)
    }
}

/// Every program of `s` was made for `params`.
pub open spec fn all_fit(s: Seq<Program>, params: ProgramGenerateParams) -> bool {
    forall|k: int| 0 <= k < s.len() ==> (#[trigger] s[k]).fits(params)
}

/// A full population of freshly generated programs.
pub fn init_population(hyper_params: &HyperParameters, rng: &mut StdRng) -> (r: Population)
    requires
        hyper_params.wf(),
    ensures
        r.capacity == hyper_params.population_size,
        r.programs@.len() == hyper_params.population_size,
        all_fit(r.programs@, hyper_params.program_params),
        forall|k: int|
            0 <= k < r.programs@.len() ==> (#[trigger] r.programs@[k]).fitness.is_none()
                && r.programs@[k].registers@ == zeroes(hyper_params.program_params.n_registers()),
{
    let mut population = Population::new(hyper_params.population_size);
    let mut count: usize = 0;
    while count < hyper_params.population_size
        invariant
            hyper_params.wf(),
            count <= hyper_params.population_size,
            population.capacity == hyper_params.population_size,
            population.programs@.len() == count,
            all_fit(population.programs@, hyper_params.program_params),
            forall|k: int|
                0 <= k < population.programs@.len() ==> (#[trigger] population.programs@[k]).fitness.is_none()
                    && population.programs@[k].registers@ == zeroes(hyper_params.program_params.n_registers()),
        decreases hyper_params.population_size - count,
    {
        let program = Program::generate(&hyper_params.program_params, rng);
        population.programs.push(program);
        count = count + 1;
    }
    population
}

/// Scores every program; a program whose fitness is still cached keeps it.
pub fn evaluate<E: Fitness>(population: &mut Population, evaluator: &mut E, rng: &mut StdRng)
    requires
        forall|k: int|
            0 <= k < old(population).programs@.len() ==> old(evaluator).can_score(
                #[trigger] old(population).programs@[k],
            ),
    ensures
        final(population).capacity == old(population).capacity,
        final(population).programs@.len() == old(population).programs@.len(),
        forall|k: int|
            0 <= k < final(population).programs@.len() ==> {
                &&& (#[trigger] final(population).programs@[k]).instructions
                    == old(population).programs@[k].instructions
                &&& final(population).programs@[k].registers == old(population).programs@[k].registers
                &&& final(population).programs@[k].fitness.is_some()
                &&& old(population).programs@[k].fitness.is_some()
                    ==> final(population).programs@[k].fitness == old(population).programs@[k].fitness
                &&& old(population).programs@[k].fitness.is_none() ==> old(evaluator).scores(
                    old(population).programs@[k],
                    final(population).programs@[k].fitness.unwrap(),
                )
            },
        forall|p: Program| #[trigger] final(evaluator).can_score(p) == old(evaluator).can_score(p),
        forall|p: Program, s: FitnessScore| #[trigger] final(evaluator).scores(p, s) == old(evaluator).scores(p, s),
{
    let n = population.programs.len();
    let mut index: usize = 0;
    while index < n
        invariant
            0 <= index <= n,
            n == population.programs@.len(),
            population.capacity == old(population).capacity,
            forall|p: Program| #[trigger] evaluator.can_score(p) == old(evaluator).can_score(p),
            forall|p: Program, s: FitnessScore| #[trigger] evaluator.scores(p, s) == old(evaluator).scores(p, s),
            forall|k: int|
                index <= k < n ==> #[trigger] population.programs@[k] == old(population).programs@[k],
            forall|k: int|
                0 <= k < index ==> {
                    &&& (#[trigger] population.programs@[k]).instructions
                        == old(population).programs@[k].instructions
                    &&& population.programs@[k].registers == old(population).programs@[k].registers
                    &&& population.programs@[k].fitness.is_some()
                    &&& old(population).programs@[k].fitness.is_some()
                        ==> population.programs@[k].fitness == old(population).programs@[k].fitness
                    &&& old(population).programs@[k].fitness.is_none() ==> old(evaluator).scores(
                        old(population).programs@[k],
                        population.programs@[k].fitness.unwrap(),
                    )
                },
            forall|k: int|
                0 <= k < n ==> old(evaluator).can_score(#[trigger] old(population).programs@[k]),
        decreases n - index,
    {
        let _ = evaluator.eval_set_fitness(&mut population.programs[index], rng);
        index = index + 1;
    }
}

/// Sorts the population worst first.
pub fn rank(population: &mut Population)
    ensures
        final(population).capacity == old(population).capacity,
        is_ranked(final(population).programs@),
        final(population).programs@.to_multiset() == old(population).programs@.to_multiset(),
{
    population.sort();
}

/// Drops programs from the worst end of a ranked population until
/// `⌊(1 - gap) · capacity⌋` remain.
pub fn apply_selection(population: &mut Population, gap: &Ratio)
    requires
        gap.wf(),
        is_ranked(old(population).programs@),
        gap.complement_floor_of_spec(old(population).capacity as nat) <= old(population).programs@.len(),
    ensures
        final(population).capacity == old(population).capacity,
        final(population).programs@.len() == gap.complement_floor_of_spec(old(population).capacity as nat),
        final(population).programs@ == old(population).programs@.subrange(
            old(population).programs@.len() - final(population).programs@.len(),
            old(population).programs@.len() as int,
        ),
        is_ranked(final(population).programs@),
{
    let keep = gap.complement_floor_of(population.capacity);
    let drop = population.programs.len() - keep;
    let kept = population.programs.split_off(drop);
    population.programs = kept;
}

/// Every `n_mutations + n_crossovers` draw fits in the freed places.
proof fn lemma_todo_fits(m: Ratio, c: Ratio, remaining: nat)
    requires
        m.wf(),
        c.wf(),
        m.fits_with(c),
    ensures
        m.floor_of_spec(remaining) + c.floor_of_spec(remaining) <= remaining,
{
    let a = m.numerator as int;
    let da = m.denominator as int;
    let b = c.numerator as int;
    let db = c.denominator as int;
    let r = remaining as int;
    let x = (a * r) / da;
    let y = (b * r) / db;
    assert(x * da <= a * r) by (nonlinear_arith)
        requires x == (a * r) / da, da > 0, a >= 0, r >= 0;
    assert(y * db <= b * r) by (nonlinear_arith)
        requires y == (b * r) / db, db > 0, b >= 0, r >= 0;
    assert((x + y) * (da * db) <= r * (da * db)) by (nonlinear_arith)
        requires
            x * da <= a * r,
            y * db <= b * r,
            a * db + b * da <= da * db,
            da > 0,
            db > 0,
            r >= 0;
    assert(x + y <= r) by (nonlinear_arith)
        requires (x + y) * (da * db) <= r * (da * db), da > 0, db > 0;
}

/// The children of crossing two programs made for `params` are made for
/// them too.
proof fn lemma_crossover_children_fit(
    a: Program,
    b: Program,
    x: Program,
    y: Program,
    params: ProgramGenerateParams,
)
    requires
        a.fits(params),
        b.fits(params),
        crossover_children(
            a.instructions@,
            b.instructions@,
            x.instructions@,
            y.instructions@,
            params.max_instructions as nat,
        ),
        x.registers@ == a.registers@,
        y.registers@ == b.registers@,
    ensures
        x.fits(params),
        y.fits(params),
{
    let p = params.instruction_params_spec();
    lemma_crossover_invents_nothing(
        a.instructions@,
        b.instructions@,
        x.instructions@,
        y.instructions@,
        params.max_instructions as nat,
    );
    assert forall|k: int| 0 <= k < x.instructions@.len() implies (
    #[trigger] x.instructions@[k]).is_valid(p) by {
        lemma_from_parents_valid(x.instructions@[k], a.instructions@, b.instructions@, p);
    }
    assert forall|k: int| 0 <= k < y.instructions@.len() implies (
    #[trigger] y.instructions@[k]).is_valid(p) by {
        lemma_from_parents_valid(y.instructions@[k], a.instructions@, b.instructions@, p);
    }
}

/// How a bred program came to be.
#[derive(Clone, Copy, Debug, PartialEq, Eq, Structural)]
pub enum Origin {
    Crossover,
    Mutation,
    Copy,
}

/// `child` is `parent` with at most one field of at most one instruction
/// changed.
pub open spec fn mutant_of(parent: Program, child: Program) -> bool {
    &&& child.instructions@.len() == parent.instructions@.len()
    &&& child.registers@ == parent.registers@
    &&& forall|k: int|
        0 <= k < child.instructions@.len() ==> field_distance(
            parent.instructions@[k],
            #[trigger] child.instructions@[k],
        ) <= 1
    &&& forall|k: int, l: int|
        0 <= k < l < child.instructions@.len() ==> parent.instructions@[k]
            == #[trigger] child.instructions@[k] || parent.instructions@[l]
            == #[trigger] child.instructions@[l]
}

/// `child`, with no cached fitness, was made from the survivors `start` as
/// `origin` says: a crossover child of two distinct survivors (with the
/// registers of the first), a mutant of a survivor, or a copy of one.
pub open spec fn made_from(start: Seq<Program>, child: Program, origin: Origin, max: nat) -> bool {
    &&& child.fitness.is_none()
    &&& match origin {
        Origin::Crossover => exists|i: int, j: int, other: Seq<Instruction>|
            #![trigger crossover_children(start[i].instructions@, start[j].instructions@, child.instructions@, other, max)]
            0 <= i < start.len() && 0 <= j < start.len() && i != j && crossover_children(
                start[i].instructions@,
                start[j].instructions@,
                child.instructions@,
                other,
                max,
            ) && child.registers@ == start[i].registers@,
        Origin::Mutation => exists|i: int| 0 <= i < start.len() && mutant_of(#[trigger] start[i], child),
        Origin::Copy => exists|i: int|
            0 <= i < start.len() && (#[trigger] start[i]).instructions@ == child.instructions@
                && start[i].registers@ == child.registers@,
    }
}

/// How many entries of `s` are `o`.
pub open spec fn count_origin(s: Seq<Origin>, o: Origin) -> nat
    decreases s.len(),
{
    if s.len() == 0 {
        0
    } else {
        count_origin(s.drop_last(), o) + if s.last() == o {
            1nat
        } else {
            0nat
        }
    }
}

proof fn lemma_count_push(s: Seq<Origin>, x: Origin)
    ensures
        forall|o: Origin| #[trigger] count_origin(s.push(x), o) == count_origin(s, o) + if x == o {
            1nat
        } else {
            0nat
        },
{
    assert(s.push(x).drop_last() =~= s);
}

/// Refills a population to capacity from its survivors: first the shares of
/// the freed places given by `n_mutations` and `n_crossovers`, from pairs of
/// distinct survivors (a random child of their crossover, a mutant of one of
/// them), then copies of uniformly drawn survivors. Every new program has no
/// cached fitness; the survivors stay in front, as they were.
pub fn breed(
    population: &mut Population,
    n_mutations: &Ratio,
    n_crossovers: &Ratio,
    params: &ProgramGenerateParams,
    rng: &mut StdRng,
)
    requires
        n_mutations.wf(),
        n_crossovers.wf(),
        n_mutations.fits_with(*n_crossovers),
        params.wf(),
        2 <= old(population).programs@.len() <= old(population).capacity,
        all_fit(old(population).programs@, *params),
    ensures
        final(population).capacity == old(population).capacity,
        final(population).programs@.len() == old(population).capacity,
        final(population).programs@.take(old(population).programs@.len() as int)
            == old(population).programs@,
        all_fit(final(population).programs@, *params),
        forall|k: int|
            old(population).programs@.len() <= k < final(population).programs@.len()
                ==> (#[trigger] final(population).programs@[k]).fitness.is_none(),
        exists|origins: Seq<Origin>|
            {
                &&& origins.len() == final(population).programs@.len() - old(population).programs@.len()
                &&& forall|k: int|
                    0 <= k < origins.len() ==> made_from(
                        old(population).programs@,
                        final(population).programs@[old(population).programs@.len() + k],
                        #[trigger] origins[k],
                        params.max_instructions as nat,
                    )
                &&& count_origin(origins, Origin::Crossover) == n_crossovers.floor_of_spec(
                    (old(population).capacity - old(population).programs@.len()) as nat,
                )
                &&& count_origin(origins, Origin::Mutation) == n_mutations.floor_of_spec(
                    (old(population).capacity - old(population).programs@.len()) as nat,
                )
            },
{
    let ghost start = population.programs@;
    let survivors = population.programs.len();
    let capacity = population.capacity;
    let remaining = capacity - survivors;
    let mut mutations_todo = n_mutations.floor_of(remaining);
    let mut crossovers_todo = n_crossovers.floor_of(remaining);
    proof {
        lemma_todo_fits(*n_mutations, *n_crossovers, remaining as nat);
    }
    let ghost total_todo = mutations_todo + crossovers_todo;
    let ghost crossovers_all = crossovers_todo;
    let ghost mutations_all = mutations_todo;
    let ghost mut origins: Seq<Origin> = Seq::empty();
    let ghost max = params.max_instructions as nat;
    while mutations_todo + crossovers_todo > 0
        invariant
            max == params.max_instructions as nat,
            crossovers_todo <= crossovers_all,
            mutations_todo <= mutations_all,
            total_todo == crossovers_all + mutations_all,
            crossovers_all == n_crossovers.floor_of_spec(remaining as nat),
            mutations_all == n_mutations.floor_of_spec(remaining as nat),
            origins.len() == population.programs@.len() - survivors,
            forall|k: int|
                0 <= k < origins.len() ==> made_from(
                    start,
                    population.programs@[survivors + k],
                    #[trigger] origins[k],
                    max,
                ),
            count_origin(origins, Origin::Crossover) == crossovers_all - crossovers_todo,
            count_origin(origins, Origin::Mutation) == mutations_all - mutations_todo,
            params.wf(),
            population.capacity == capacity,
            2 <= survivors <= start.len(),
            survivors == start.len(),
            remaining == capacity - survivors,
            total_todo <= remaining,
            mutations_todo + crossovers_todo <= total_todo,
            population.programs@.len() == survivors + (total_todo - (mutations_todo + crossovers_todo)),
            population.programs@.take(survivors as int) == start,
            all_fit(population.programs@, *params),
            forall|k: int|
                survivors <= k < population.programs@.len()
                    ==> (#[trigger] population.programs@[k]).fitness.is_none(),
        decreases mutations_todo + crossovers_todo,
    {
        let (index_a, index_b) = two_distinct_below(rng, survivors);
        proof {
            assert(population.programs@[index_a as int] == start[index_a as int]);
            assert(population.programs@[index_b as int] == start[index_b as int]);
        }
        if crossovers_todo > 0 {
            let ghost pa = population.programs@[index_a as int];
            let ghost pb = population.programs@[index_b as int];
            let (child_a, child_b) = population.programs[index_a].two_point_crossover(
                &population.programs[index_b],
                params.max_instructions,
                rng,
            );
            proof {
                lemma_crossover_children_fit(pa, pb, child_a, child_b, *params);
            }
            proof {
                lemma_crossover_children_swap(
                    pa.instructions@,
                    pb.instructions@,
                    child_a.instructions@,
                    child_b.instructions@,
                    max,
                );
                assert(made_from(start, child_a, Origin::Crossover, max)) by {
                    assert(crossover_children(
                        start[index_a as int].instructions@,
                        start[index_b as int].instructions@,
                        child_a.instructions@,
                        child_b.instructions@,
                        max,
                    ));
                }
                assert(made_from(start, child_b, Origin::Crossover, max)) by {
                    assert(crossover_children(
                        start[index_b as int].instructions@,
                        start[index_a as int].instructions@,
                        child_b.instructions@,
                        child_a.instructions@,
                        max,
                    ));
                }
            }
            let child = if below(rng, 2) == 0 {
                child_a
            } else {
                child_b
            };
            let ghost before = population.programs@;
            population.programs.push(child);
            crossovers_todo = crossovers_todo - 1;
            proof {
                assert(population.programs@.take(survivors as int) =~= start);
                lemma_count_push(origins, Origin::Crossover);
                origins = origins.push(Origin::Crossover);
                assert forall|k: int| 0 <= k < origins.len() implies made_from(
                    start,
                    population.programs@[survivors + k],
                    #[trigger] origins[k],
                    max,
                ) by {
                    if k < origins.len() - 1 {
                        assert(population.programs@[survivors + k] == before[survivors + k]);
                    }
                }
            }
        }
        if mutations_todo > 0 {
            let parent = if below(rng, 2) == 0 {
                index_a
            } else {
                index_b
            };
            proof {
                assert(population.programs@[parent as int].fits(*params));
            }
            let child = population.programs[parent].mutate(params, rng);
            proof {
                assert(population.programs@[parent as int] == start[parent as int]);
                assert(mutant_of(start[parent as int], child));
                assert(made_from(start, child, Origin::Mutation, max));
            }
            let ghost before = population.programs@;
            population.programs.push(child);
            mutations_todo = mutations_todo - 1;
            proof {
                assert(population.programs@.take(survivors as int) =~= start);
                lemma_count_push(origins, Origin::Mutation);
                origins = origins.push(Origin::Mutation);
                assert forall|k: int| 0 <= k < origins.len() implies made_from(
                    start,
                    population.programs@[survivors + k],
                    #[trigger] origins[k],
                    max,
                ) by {
                    if k < origins.len() - 1 {
                        assert(population.programs@[survivors + k] == before[survivors + k]);
                    }
                }
            }
        }
    }
    while population.programs.len() < capacity
        invariant
            params.wf(),
            population.capacity == capacity,
            survivors == start.len(),
            2 <= survivors <= population.programs@.len() <= capacity,
            population.programs@.take(survivors as int) == start,
            all_fit(population.programs@, *params),
            forall|k: int|
                survivors <= k < population.programs@.len()
                    ==> (#[trigger] population.programs@[k]).fitness.is_none(),
            max == params.max_instructions as nat,
            crossovers_all == n_crossovers.floor_of_spec(remaining as nat),
            mutations_all == n_mutations.floor_of_spec(remaining as nat),
            remaining == capacity - survivors,
            origins.len() == population.programs@.len() - survivors,
            forall|k: int|
                0 <= k < origins.len() ==> made_from(
                    start,
                    population.programs@[survivors + k],
                    #[trigger] origins[k],
                    max,
                ),
            count_origin(origins, Origin::Crossover) == crossovers_all,
            count_origin(origins, Origin::Mutation) == mutations_all,
        decreases capacity - population.programs@.len(),
    {
        let index = below(rng, survivors);
        proof {
            assert(population.programs@[index as int] == start[index as int]);
        }
        let child = population.programs[index].offspring_copy();
        proof {
            assert(made_from(start, child, Origin::Copy, max));
        }
        let ghost before = population.programs@;
        population.programs.push(child);
        proof {
            assert(population.programs@.take(survivors as int) =~= start);
            lemma_count_push(origins, Origin::Copy);
            origins = origins.push(Origin::Copy);
            assert forall|k: int| 0 <= k < origins.len() implies made_from(
                start,
                population.programs@[survivors + k],
                #[trigger] origins[k],
                max,
            ) by {
                if k < origins.len() - 1 {
                    assert(population.programs@[survivors + k] == before[survivors + k]);
                }
            }
        }
    }
}

proof fn lemma_complement_at_most(r: Ratio, n: nat)
    requires
        r.wf(),
    ensures
        r.complement_floor_of_spec(n) <= n,
{
    let c = (r.denominator - r.numerator) as int;
    let d = r.denominator as int;
    let m = n as int;
    assert(c * m <= d * m) by (nonlinear_arith)
        requires 0 <= c <= d, m >= 0;
    assert((c * m) / d <= (d * m) / d) by (nonlinear_arith)
        requires c * m <= d * m, d > 0;
    assert((d * m) / d == m) by (nonlinear_arith)
        requires d > 0;
}

/// The programs of a reordering of `s` are those of `s`.
proof fn lemma_reordering_keeps_fit(s: Seq<Program>, t: Seq<Program>, params: ProgramGenerateParams)
    requires
        all_fit(s, params),
        t.to_multiset() == s.to_multiset(),
    ensures
        all_fit(t, params),
{
    assert forall|k: int| 0 <= k < t.len() implies (#[trigger] t[k]).fits(params) by {
        vstd::seq_lib::to_multiset_contains(t, t[k]);
        vstd::seq_lib::to_multiset_contains(s, t[k]);
        assert(t.contains(t[k]));
        let q = choose|q: int| 0 <= q < s.len() && s[q] == t[k];
        assert(s[q].fits(params));
    }
}

/// The first `survivors` programs are ranked and scored, and every program
/// after them is unscored: a population just bred from a ranked selection.
pub open spec fn bred_after_ranking(s: Seq<Program>, survivors: nat) -> bool {
    &&& is_ranked(s.take(survivors as int))
    &&& forall|k: int| 0 <= k < survivors ==> (#[trigger] s[k]).fitness.is_some()
    &&& forall|k: int| survivors <= k < s.len() ==> (#[trigger] s[k]).fitness.is_none()
}

/// A reordering of programs that all hold a score holds scored programs only.
proof fn lemma_reordering_keeps_scored(s: Seq<Program>, t: Seq<Program>)
    requires
        forall|k: int| 0 <= k < s.len() ==> (#[trigger] s[k]).fitness.is_some(),
        t.to_multiset() == s.to_multiset(),
    ensures
        forall|k: int| 0 <= k < t.len() ==> (#[trigger] t[k]).fitness.is_some(),
{
    assert forall|k: int| 0 <= k < t.len() implies (#[trigger] t[k]).fitness.is_some() by {
        vstd::seq_lib::to_multiset_contains(t, t[k]);
        vstd::seq_lib::to_multiset_contains(s, t[k]);
        assert(t.contains(t[k]));
        let q = choose|q: int| 0 <= q < s.len() && s[q] == t[k];
        assert(s[q].fitness.is_some());
    }
}

/// A full run: a fresh population, then `max_generations` rounds of
/// evaluation, ranking, selection and breeding.
pub fn execute<E: Fitness>(
    hyper_params: &HyperParameters,
    evaluator: &mut E,
    rng: &mut StdRng,
) -> (r: Population)
    requires
        hyper_params.wf(),
        hyper_params.survivors() >= 2,
        forall|p: Program|
            p.registers@.len() == hyper_params.program_params.n_registers() ==> #[trigger] old(
                evaluator,
            ).can_score(p),
    ensures
        r.capacity == hyper_params.population_size,
        r.programs@.len() == hyper_params.population_size,
        all_fit(r.programs@, hyper_params.program_params),
        hyper_params.max_generations > 0 ==> bred_after_ranking(r.programs@, hyper_params.survivors()),
{
    let mut population = init_population(hyper_params, rng);
    let mut generation: usize = 0;
    while generation < hyper_params.max_generations
        invariant
            hyper_params.wf(),
            hyper_params.survivors() >= 2,
            forall|p: Program|
                p.registers@.len() == hyper_params.program_params.n_registers() ==> #[trigger] evaluator.can_score(p),
            population.capacity == hyper_params.population_size,
            population.programs@.len() == hyper_params.population_size,
            all_fit(population.programs@, hyper_params.program_params),
            generation > 0 ==> bred_after_ranking(population.programs@, hyper_params.survivors()),
        decreases hyper_params.max_generations - generation,
    {
        proof {
            assert forall|k: int| 0 <= k < population.programs@.len() implies evaluator.can_score(
                #[trigger] population.programs@[k],
            ) by {
                assert(population.programs@[k].fits(hyper_params.program_params));
            }
        }
        let ghost before = population.programs@;
        evaluate(&mut population, evaluator, rng);
        proof {
            assert forall|k: int| 0 <= k < population.programs@.len() implies (
            #[trigger] population.programs@[k]).fits(hyper_params.program_params) by {
                assert(before[k].fits(hyper_params.program_params));
            }
        }
        let ghost evaluated = population.programs@;
        rank(&mut population);
        proof {
            lemma_reordering_keeps_fit(evaluated, population.programs@, hyper_params.program_params);
            lemma_reordering_keeps_scored(evaluated, population.programs@);
            vstd::seq_lib::to_multiset_len(evaluated);
            vstd::seq_lib::to_multiset_len(population.programs@);
        }
        let ghost ranked = population.programs@;
        proof {
            assert(ranked.len() == hyper_params.population_size);
            lemma_complement_at_most(hyper_params.gap, hyper_params.population_size as nat);
        }
        apply_selection(&mut population, &hyper_params.gap);
        proof {
            let selected = population.programs@;
            let offset = ranked.len() - selected.len();
            assert forall|k: int| 0 <= k < selected.len() implies (
            #[trigger] selected[k]).fits(hyper_params.program_params) by {
                assert(selected[k] == ranked[offset + k]);
                assert(ranked[offset + k].fits(hyper_params.program_params));
            }
            assert forall|k: int| 0 <= k < selected.len() implies (#[trigger] selected[k]).fitness.is_some() by {
                assert(selected[k] == ranked[offset + k]);
            }
        }
        let ghost selected = population.programs@;
        breed(
            &mut population,
            &hyper_params.n_mutations,
            &hyper_params.n_crossovers,
            &hyper_params.program_params,
            rng,
        );
        proof {
            let n = hyper_params.survivors() as int;
            assert(population.programs@.take(n) == selected);
            assert forall|k: int| 0 <= k < n implies (#[trigger] population.programs@[k]).fitness.is_some() by {
                assert(population.programs@[k] == selected[k]);
            }
        }
        generation = generation + 1;
    }
    population
}

/// The steps of a generation, in the order they run.
#[derive(Clone, Copy, Debug, PartialEq, Eq, Structural)]
pub enum Step {
    Evaluate,
    Rank,
    Select,
    Breed,
}

impl Step {
    /// The step that follows this one; breeding ends a generation.
    pub fn next(self) -> (r: Step)
        ensures
            self == Step::Evaluate ==> r == Step::Rank,
            self == Step::Rank ==> r == Step::Select,
            self == Step::Select ==> r == Step::Breed,
            self == Step::Breed ==> r == Step::Evaluate,
    {
        match self {
            Step::Evaluate => Step::Rank,
            Step::Rank => Step::Select,
            Step::Select => Step::Breed,
            Step::Breed => Step::Evaluate,
        }
    }
}

/// Why a step could not run on the population it was given.
#[derive(Clone, Copy, Debug, PartialEq, Eq, Structural)]
pub enum StepError {
    /// A program is not one the settings could have made.
    Unfit,
    /// The population is not ranked worst first.
    Unranked,
    /// Too few programs for the step, or more than the capacity.
    BadSize,
}

/// Whether `step` can run on `population` under `hyper_params`, and if not,
/// why.
pub open spec fn step_error(population: Population, step: Step, hyper_params: HyperParameters) -> Option<StepError> {
    match step {
        Step::Evaluate => if all_fit(population.programs@, hyper_params.program_params) {
            None
        } else {
            Some(StepError::Unfit)
        },
        Step::Rank => None,
        Step::Select => if !is_ranked(population.programs@) {
            Some(StepError::Unranked)
        } else if hyper_params.gap.complement_floor_of_spec(population.capacity as nat)
            > population.programs@.len() {
            Some(StepError::BadSize)
        } else {
            None
        },
        Step::Breed => if !(2 <= population.programs@.len() <= population.capacity) {
            Some(StepError::BadSize)
        } else if !all_fit(population.programs@, hyper_params.program_params) {
            Some(StepError::Unfit)
        } else {
            None
        },
    }
}

/// Whether every program of `programs` was made for `params`.
pub fn all_fit_exec(programs: &Vec<Program>, params: &ProgramGenerateParams) -> (r: bool)
    requires
        params.wf(),
    ensures
        r == all_fit(programs@, *params),
{
    let n_registers = params.n_action_registers + params.n_input_registers;
    let mut index: usize = 0;
    while index < programs.len()
        invariant
            0 <= index <= programs@.len(),
            params.wf(),
            n_registers == params.n_registers(),
            forall|k: int| 0 <= k < index ==> (#[trigger] programs@[k]).fits(*params),
        decreases programs@.len() - index,
    {
        let program = &programs[index];
        if program.instructions.len() > params.max_instructions || program.registers.len() != n_registers {
            return false;
        }
        let mut at: usize = 0;
        while at < program.instructions.len()
            invariant
                0 <= at <= program.instructions@.len(),
                n_registers == params.n_registers(),
                index < programs@.len(),
                *program == programs@[index as int],
                forall|k: int|
                    0 <= k < at ==> (#[trigger] program.instructions@[k]).is_valid(
                        params.instruction_params_spec(),
                    ),
            decreases program.instructions@.len() - at,
        {
            let ins = program.instructions[at];
            if ins.src >= n_registers || ins.dst >= n_registers {
                proof {
                    assert(!programs@[index as int].instructions@[at as int].is_valid(
                        params.instruction_params_spec(),
                    ));
                    assert(!programs@[index as int].fits(*params));
                }
                return false;
            }
            let mut found = false;
            let mut e: usize = 0;
            while e < params.executables.len()
                invariant
                    0 <= e <= params.executables@.len(),
                    index < programs@.len(),
                    *program == programs@[index as int],
                    at < program.instructions@.len(),
                    ins == program.instructions@[at as int],
                    found == (exists|q: int| 0 <= q < e && params.executables@[q] == ins.op),
                decreases params.executables@.len() - e,
            {
                if params.executables[e] == ins.op {
                    found = true;
                }
                e = e + 1;
            }
            if !found {
                proof {
                    assert(!params.executables@.contains(ins.op));
                    assert(!programs@[index as int].instructions@[at as int].is_valid(
                        params.instruction_params_spec(),
                    ));
                    assert(!programs@[index as int].fits(*params));
                }
                return false;
            }
            at = at + 1;
        }
        index = index + 1;
    }
    true
}

/// Whether `programs` are ranked worst first.
pub fn is_ranked_exec(programs: &Vec<Program>) -> (r: bool)
    ensures
        r == is_ranked(programs@),
{
    let mut index: usize = 1;
    if programs.len() == 0 {
        return true;
    }
    while index < programs.len()
        invariant
            1 <= index <= programs@.len(),
            is_ranked(programs@.take(index as int)),
        decreases programs@.len() - index,
    {
        if !crate::program::fitness_le_exec(programs[index - 1].fitness, programs[index].fitness) {
            return false;
        }
        proof {
            let t = programs@.take(index + 1);
            assert forall|i: int, j: int| 0 <= i < j < t.len() implies fitness_le(
                #[trigger] t[i].fitness,
                #[trigger] t[j].fitness,
            ) by {
                if j == index && i < index - 1 {
                    assert(programs@.take(index as int)[i] == t[i]);
                    assert(programs@.take(index as int)[index - 1] == t[index - 1]);
                    assert(fitness_le(t[i].fitness, t[index - 1].fitness));
                } else if j < index {
                    assert(programs@.take(index as int)[i] == t[i]);
                    assert(programs@.take(index as int)[j] == t[j]);
                }
            }
        }
        index = index + 1;
    }
    proof {
        assert(programs@.take(programs@.len() as int) =~= programs@);
    }
    true
}

/// Runs one step of a generation on a population handed back by an
/// observer, after testing that the step can run on it. When it cannot,
/// the population is left as it was and the reason is returned.
pub fn run_step<E: Fitness>(
    population: &mut Population,
    step: Step,
    hyper_params: &HyperParameters,
    evaluator: &mut E,
    rng: &mut StdRng,
) -> (r: Result<(), StepError>)
    requires
        hyper_params.wf(),
        forall|p: Program|
            p.registers@.len() == hyper_params.program_params.n_registers() ==> #[trigger] old(
                evaluator,
            ).can_score(p),
    ensures
        final(population).capacity == old(population).capacity,
        step_error(*old(population), step, *hyper_params) matches Some(e) ==> r == Err::<(), StepError>(e)
            && *final(population) == *old(population),
        step_error(*old(population), step, *hyper_params).is_none() ==> r.is_ok(),
        r.is_ok() && step == Step::Evaluate ==> {
            &&& final(population).programs@.len() == old(population).programs@.len()
            &&& forall|k: int|
                0 <= k < final(population).programs@.len() ==> {
                    &&& (#[trigger] final(population).programs@[k]).instructions
                        == old(population).programs@[k].instructions
                    &&& final(population).programs@[k].registers == old(population).programs@[k].registers
                    &&& final(population).programs@[k].fitness.is_some()
                    &&& old(population).programs@[k].fitness.is_some()
                        ==> final(population).programs@[k].fitness == old(population).programs@[k].fitness
                    &&& old(population).programs@[k].fitness.is_none() ==> old(evaluator).scores(
                        old(population).programs@[k],
                        final(population).programs@[k].fitness.unwrap(),
                    )
                }
        },
        r.is_ok() && step == Step::Rank ==> is_ranked(final(population).programs@)
            && final(population).programs@.to_multiset() == old(population).programs@.to_multiset(),
        r.is_ok() && step == Step::Select ==> final(population).programs@ == old(population).programs@.subrange(
            old(population).programs@.len() - hyper_params.gap.complement_floor_of_spec(
                old(population).capacity as nat,
            ),
            old(population).programs@.len() as int,
        ),
        r.is_ok() && step == Step::Breed ==> {
            &&& final(population).programs@.len() == old(population).capacity
            &&& final(population).programs@.take(old(population).programs@.len() as int)
                == old(population).programs@
            &&& all_fit(final(population).programs@, hyper_params.program_params)
        },
        forall|p: Program| #[trigger] final(evaluator).can_score(p) == old(evaluator).can_score(p),
        forall|p: Program, s: FitnessScore| #[trigger] final(evaluator).scores(p, s) == old(evaluator).scores(p, s),
{
    match step {
        Step::Evaluate => {
            if !all_fit_exec(&population.programs, &hyper_params.program_params) {
                return Err(StepError::Unfit);
            }
            proof {
                assert forall|k: int| 0 <= k < population.programs@.len() implies evaluator.can_score(
                    #[trigger] population.programs@[k],
                ) by {
                    assert(population.programs@[k].fits(hyper_params.program_params));
                }
            }
            evaluate(population, evaluator, rng);
            Ok(())
        },
        Step::Rank => {
            rank(population);
            Ok(())
        },
        Step::Select => {
            if !is_ranked_exec(&population.programs) {
                return Err(StepError::Unranked);
            }
            if hyper_params.gap.complement_floor_of(population.capacity) > population.programs.len() {
                return Err(StepError::BadSize);
            }
            apply_selection(population, &hyper_params.gap);
            Ok(())
        },
        Step::Breed => {
            if population.programs.len() < 2 || population.programs.len() > population.capacity {
                return Err(StepError::BadSize);
            }
            if !all_fit_exec(&population.programs, &hyper_params.program_params) {
                return Err(StepError::Unfit);
            }
            breed(
                population,
                &hyper_params.n_mutations,
                &hyper_params.n_crossovers,
                &hyper_params.program_params,
                rng,
            );
            Ok(())
        },
    }
}

} // verus!
