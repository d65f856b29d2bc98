use crate::program::{FitnessScore, Program};
use rand::rngs::StdRng;
use vstd::prelude::*;

verus! {

/// A way of scoring programs on a task. Scoring caches the score in the
/// program; a program that already holds a score keeps it.
pub trait Fitness {
    /// The evaluator can score `program`.
    spec fn can_score(&self, program: Program) -> bool;

    /// `score` is a score this evaluator gives `program`.
    spec fn scores(&self, program: Program, score: FitnessScore) -> bool;

    fn eval_set_fitness(&mut self, program: &mut Program, rng: &mut StdRng) -> (r: FitnessScore)
        requires
            old(self).can_score(*old(program)),
        ensures
            final(program).instructions == old(program).instructions,
            final(program).registers == old(program).registers,
            old(program).fitness.is_some() ==> final(program).fitness == old(program).fitness,
            final(program).fitness == Some(r),
            old(program).fitness.is_none() ==> old(self).scores(*old(program), r),
            forall|p: Program| #[trigger] final(self).can_score(p) == old(self).can_score(p),
            forall|p: Program, s: FitnessScore| #[trigger] final(self).scores(p, s) == old(self).scores(p, s),
    ;
}

} // verus!
