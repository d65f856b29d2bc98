use crate::metrics::{accuracy_spec, hits_in, is_hit, lemma_observe_all_counts, Accuracy, Metric, Observation, ACCURACY_SCALE, observe_all};
use crate::program::{lemma_run_keeps_length, run_spec, FitnessScore, Program};
use crate::registers::{is_max_in, is_tied_argmax, zeroes, RegisterValue};
use crate::characteristics::Fitness;
use rand::rngs::StdRng;
use vstd::prelude::*;

verus! {

/// A labelled record of a classification task.
pub trait ClassificationInput {
    /// The record's feature vector, as the program reads it.
    spec fn features_spec(&self) -> Seq<RegisterValue>;

    /// The index of the record's class.
    spec fn class_spec(&self) -> usize;

    fn get_features(&self) -> (r: Vec<RegisterValue>)
        ensures
            r@ == self.features_spec(),
    ;

    fn get_class(&self) -> (r: usize)
        ensures
            r == self.class_spec(),
    ;
}

/// Register `i` of the first `n` holds a value strictly above all the others.
pub open spec fn unique_max_at(s: Seq<RegisterValue>, n: int, i: int) -> bool {
    &&& 0 <= i < n
    &&& forall|j: int| 0 <= j < n && j != i ==> #[trigger] s[j] < s[i]
}

/// The strict decoding of the first `n` registers: the index of the maximum
/// when exactly one register attains it, else nothing.
pub open spec fn strict_prediction(s: Seq<RegisterValue>, n: int) -> Option<usize> {
    if exists|i: int| unique_max_at(s, n, i) {
        Some((choose|i: int| unique_max_at(s, n, i)) as usize)
    } else {
        None
    }
}

/// What the program predicts for `record`, run from a zeroed bank, paired
/// with the record's class.
pub open spec fn record_observation<T: ClassificationInput>(
    program: Program,
    record: T,
    n_classes: int,
) -> Observation {
    (
        strict_prediction(
            run_spec(
                program.instructions@,
                zeroes(program.registers@.len()),
                record.features_spec(),
            ),
            n_classes,
        ),
        Some(record.class_spec()),
    )
}

/// The observations a program yields on each record, each run from a
/// zeroed register bank.
pub open spec fn observations<T: ClassificationInput>(
    program: Program,
    records: Seq<T>,
    n_classes: int,
) -> Seq<Observation> {
    records.map_values(|r: T| record_observation(program, r, n_classes))
}

/// The classification fitness: the share of records whose strict
/// prediction is their class, in millionths.
pub open spec fn classification_fitness<T: ClassificationInput>(
    program: Program,
    records: Seq<T>,
    n_classes: int,
) -> int {
    accuracy_spec(hits_in(observations(program, records, n_classes)), records.len())
}

/// The program's answer can be decoded over `n_classes`.
pub open spec fn can_classify(program: Program, n_classes: int) -> bool {
    0 < n_classes <= program.registers@.len()
}

proof fn lemma_unique_max_is_unique(s: Seq<RegisterValue>, n: int, i: int, t: int)
    requires
        unique_max_at(s, n, i),
        unique_max_at(s, n, t),
    ensures
        i == t,
{
    if i != t {
        assert(s[t] < s[i]);
        assert(s[i] < s[t]);
    }
}

/// The "strict" tie policy: a single tied index is the answer; any tie is
/// no answer.
pub fn strict_argmax(ties: &Vec<usize>) -> (r: Option<usize>)
    ensures
        ties@.len() == 1 ==> r == Some(ties@[0]),
        ties@.len() != 1 ==> r.is_none(),
{
    if ties.len() == 1 {
        Some(ties[0])
    } else {
        None
    }
}

/// The class a program predicts on `input`: the strict decoding of its
/// first `n_classes` registers after a run from a zeroed bank.
pub fn predict(program: &Program, input: &Vec<RegisterValue>, n_classes: usize) -> (r: Option<usize>)
    requires
        0 < n_classes <= program.registers@.len(),
    ensures
        r == strict_prediction(
            run_spec(program.instructions@, zeroes(program.registers@.len()), input@),
            n_classes as int,
        ),
{
    let registers = program.exec_zeroed(input);
    proof {
        lemma_run_keeps_length(program.instructions@, zeroes(program.registers@.len()), input@);
    }
    let ties = registers.argmax(0, n_classes);
    let r = strict_argmax(&ties);
    proof {
        let s = registers@;
        let n = n_classes as int;
        assert(is_tied_argmax(s, 0, n, ties@));
        if ties@.len() == 1 {
            let t = ties@[0] as int;
            assert forall|j: int| 0 <= j < n && j != t implies #[trigger] s[j] < s[t] by {
                if s[j] >= s[t] {
                    assert(is_max_in(s, 0, n, t));
                    assert forall|k: int| 0 <= k < n implies #[trigger] s[k] <= s[j] by {
                        assert(s[k] <= s[t]);
                    }
                    assert(is_max_in(s, 0, n, j));
                    assert(ties@.contains(j as usize));
                }
            }
            assert(unique_max_at(s, n, t));
            let c = choose|i: int| unique_max_at(s, n, i);
            lemma_unique_max_is_unique(s, n, c, t);
        } else {
            if exists|i: int| unique_max_at(s, n, i) {
                let i = choose|i: int| unique_max_at(s, n, i);
                let a = ties@[0] as int;
                let b = ties@[1] as int;
                assert(is_max_in(s, 0, n, a));
                assert(is_max_in(s, 0, n, b));
                assert(s[i] <= s[a]);
                assert(s[i] <= s[b]);
                assert(ties@[0] < ties@[1]);
            }
        }
    }
    r
}

/// The program's accuracy over `inputs`: each record is run from a zeroed
/// register bank, decoded strictly over the first
/// `n_classes` registers and compared with its class.
pub fn eval_fitness<T: ClassificationInput>(
    program: &Program,
    inputs: &Vec<T>,
    n_classes: usize,
) -> (r: FitnessScore)
    requires
        can_classify(*program, n_classes as int),
    ensures
        r == classification_fitness(*program, inputs@, n_classes as int),
{
    let ghost obs = observations(*program, inputs@, n_classes as int);
    let mut fitness = Accuracy::new(0, 0);
    let mut index: usize = 0;
    while index < inputs.len()
        invariant
            0 <= index <= inputs@.len(),
            can_classify(*program, n_classes as int),
            obs == observations(*program, inputs@, n_classes as int),
            fitness.wf(),
            fitness.1 == index,
            fitness.counts() == observe_all((0, 0), obs.take(index as int)),
        decreases inputs@.len() - index,
    {
        let record = &inputs[index];
        let features = record.get_features();
        let predicted = predict(program, &features, n_classes);
        let truth = record.get_class();
        proof {
            assert(obs[index as int] == (predicted, Some(truth)));
            let next = obs.take(index + 1);
            assert(next.drop_last() =~= obs.take(index as int));
        }
        fitness.observe((predicted, Some(truth)));
        index = index + 1;
    }
    proof {
        assert(obs.take(inputs@.len() as int) =~= obs);
        lemma_observe_all_counts((0, 0), obs);
    }
    fitness.calculate()
}

/// The cached fitness, computed and stored first when none is cached.
pub fn eval_set_fitness<T: ClassificationInput>(
    program: &mut Program,
    inputs: &Vec<T>,
    n_classes: usize,
) -> (r: FitnessScore)
    requires
        can_classify(*old(program), n_classes as int),
    ensures
        final(program).instructions == old(program).instructions,
        final(program).registers == old(program).registers,
        old(program).fitness.is_some() ==> final(program).fitness == old(program).fitness,
        old(program).fitness.is_none() ==> final(program).fitness == Some(
            classification_fitness(*old(program), inputs@, n_classes as int) as FitnessScore,
        ),
        final(program).fitness == Some(r),
{
    match program.fitness {
        Some(score) => score,
        None => {
            let score = eval_fitness(program, inputs, n_classes);
            program.fitness = Some(score);
            score
        },
    }
}

/// Classification fitness lies between zero and a perfect score, and is
/// perfect exactly when the strict prediction of every record is its class.
pub proof fn lemma_classification_fitness_bounds<T: ClassificationInput>(
    program: Program,
    records: Seq<T>,
    n_classes: int,
)
    requires
        records.len() > 0,
    ensures
        0 <= classification_fitness(program, records, n_classes) <= ACCURACY_SCALE,
        classification_fitness(program, records, n_classes) == ACCURACY_SCALE <==> forall|k: int|
            0 <= k < records.len() ==> is_hit(#[trigger] record_observation(program, records[k], n_classes)),
{
    let obs = observations(program, records, n_classes);
    let h = hits_in(obs) as int;
    let t = records.len() as int;
    lemma_hits_bounded(obs);
    assert(h * ACCURACY_SCALE <= t * ACCURACY_SCALE) by (nonlinear_arith)
        requires h <= t;
    assert((h * ACCURACY_SCALE) / t <= (t * ACCURACY_SCALE) / t) by (nonlinear_arith)
        requires h * ACCURACY_SCALE <= t * ACCURACY_SCALE, t > 0;
    assert((t * ACCURACY_SCALE) / t == ACCURACY_SCALE) by (nonlinear_arith)
        requires t > 0;
    if h < t {
        assert((h * ACCURACY_SCALE) / t < ACCURACY_SCALE) by (nonlinear_arith)
            requires h < t, t > 0;
    }
    lemma_hits_all(obs);
    assert forall|k: int| 0 <= k < t implies obs[k] == #[trigger] record_observation(program, records[k], n_classes) by {
    }
}

proof fn lemma_hits_bounded(s: Seq<Observation>)
    ensures
        hits_in(s) <= s.len(),
    decreases s.len(),
{
    if s.len() > 0 {
        lemma_hits_bounded(s.drop_last());
    }
}

/// The hits of `s` are its length exactly when every observation is a hit.
proof fn lemma_hits_all(s: Seq<Observation>)
    ensures
        hits_in(s) == s.len() <==> forall|k: int| 0 <= k < s.len() ==> is_hit(#[trigger] s[k]),
    decreases s.len(),
{
    if s.len() > 0 {
        let p = s.drop_last();
        lemma_hits_all(p);
        lemma_hits_bounded(p);
        if hits_in(s) == s.len() {
            assert forall|k: int| 0 <= k < s.len() implies is_hit(#[trigger] s[k]) by {
                if k < s.len() - 1 {
                    assert(p[k] == s[k]);
                }
            }
        }
        if forall|k: int| 0 <= k < s.len() ==> is_hit(#[trigger] s[k]) {
            assert forall|k: int| 0 <= k < p.len() implies is_hit(#[trigger] p[k]) by {
                assert(s[k] == p[k]);
            }
            assert(is_hit(s[s.len() - 1]));
        }
    }
}

/// Scoring a dataset made of two parts counts the hits of each part, each
/// record run from a zeroed bank, as if run on its own.
pub proof fn lemma_observations_split<T: ClassificationInput>(
    program: Program,
    a: Seq<T>,
    b: Seq<T>,
    n_classes: int,
)
    ensures
        hits_in(observations(program, a + b, n_classes)) == hits_in(observations(program, a, n_classes))
            + hits_in(observations(program, b, n_classes)),
{
    assert(observations(program, a + b, n_classes) =~= observations(program, a, n_classes)
        + observations(program, b, n_classes));
    crate::metrics::lemma_hits_in_append(
        observations(program, a, n_classes),
        observations(program, b, n_classes),
    );
}

/// The labelled records a classification program is scored on, and the
/// number of classes its first registers are decoded over.
pub struct ClassificationParameters<'a, T> {
    pub inputs: &'a Vec<T>,
    pub n_classes: usize,
}

impl<'a, T: ClassificationInput> ClassificationParameters<'a, T> {
    pub fn new(inputs: &'a Vec<T>, n_classes: usize) -> (r: ClassificationParameters<'a, T>)
        ensures
            r.inputs == inputs,
            r.n_classes == n_classes,
    {
        ClassificationParameters { inputs, n_classes }
    }
}

impl<'a, T: ClassificationInput> Fitness for ClassificationParameters<'a, T> {
    open spec fn can_score(&self, program: Program) -> bool {
        can_classify(program, self.n_classes as int)
    }

    open spec fn scores(&self, program: Program, score: FitnessScore) -> bool {
        score == classification_fitness(program, self.inputs@, self.n_classes as int)
    }

    fn eval_set_fitness(&mut self, program: &mut Program, rng: &mut StdRng) -> (r: FitnessScore)
        ensures
            old(program).fitness.is_none() ==> final(program).fitness == Some(
                classification_fitness(*old(program), old(self).inputs@, old(self).n_classes as int) as FitnessScore,
            ),
    {
        proof {
            if self.inputs@.len() > 0 {
                lemma_classification_fitness_bounds(*program, self.inputs@, self.n_classes as int);
            }
        }
        eval_set_fitness(program, self.inputs, self.n_classes)
    }
}

} // verus!
