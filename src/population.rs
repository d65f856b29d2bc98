use crate::program::{fitness_le, fitness_le_exec, FitnessScore, Program};
use vstd::multiset::Multiset;
use vstd::prelude::*;
use vstd::seq_lib::{to_multiset_insert, to_multiset_remove};

verus! {

/// Every program is no fitter than any program after it.
pub open spec fn is_ranked(s: Seq<Program>) -> bool {
    forall|i: int, j: int| 0 <= i < j < s.len() ==> fitness_le(#[trigger] s[i].fitness, #[trigger] s[j].fitness)
}

/// The cached fitness of the worst, the median and the best program of a
/// ranked population.
#[derive(Clone, Copy, Debug, PartialEq, Eq, Structural)]
pub struct Benchmark {
    pub worst: Option<FitnessScore>,
    pub median: Option<FitnessScore>,
    pub best: Option<FitnessScore>,
}

/// A bounded sequence of programs, kept worst first once sorted.
#[derive(Clone, Debug)]
pub struct Population {
    pub programs: Vec<Program>,
    pub capacity: usize,
}

impl Population {
    pub open spec fn wf(&self) -> bool {
        self.programs@.len() <= self.capacity
    }

    /// An empty population that holds at most `population_size` programs.
    pub fn new(population_size: usize) -> (r: Population)
        ensures
            r.programs@.len() == 0,
            r.capacity == population_size,
    {
        Population { programs: Vec::new(), capacity: population_size }
    }

    pub fn get_pop(&self) -> (r: &Vec<Program>)
        ensures
            r@ == self.programs@,
    {
        &self.programs
    }

    /// The programs, for changes in place; the capacity stays as it is.
    pub fn get_mut_pop(&mut self) -> (r: &mut Vec<Program>)
        ensures
            *r == old(self).programs,
            final(self).programs == *final(r),
            final(self).capacity == old(self).capacity,
    {
        &mut self.programs
    }

    pub fn get(&self, index: usize) -> (r: Option<&Program>)
        ensures
            index < self.programs@.len() ==> r == Some(&self.programs@[index as int]),
            index >= self.programs@.len() ==> r.is_none(),
    {
        if index < self.programs.len() {
            Some(&self.programs[index])
        } else {
            None
        }
    }

    /// The worst program, once sorted.
    pub fn first(&self) -> (r: Option<&Program>)
        ensures
            self.programs@.len() > 0 ==> r == Some(&self.programs@[0]),
            self.programs@.len() == 0 ==> r.is_none(),
    {
        self.get(0)
    }

    /// The best program, once sorted.
    pub fn last(&self) -> (r: Option<&Program>)
        ensures
            self.programs@.len() > 0 ==> r == Some(&self.programs@.last()),
            self.programs@.len() == 0 ==> r.is_none(),
    {
        if self.programs.len() == 0 {
            None
        } else {
            Some(&self.programs[self.programs.len() - 1])
        }
    }

    /// The fitness of the first, middle (index `⌊len / 2⌋`) and last
    /// programs; nothing for an empty population.
    pub fn get_benchmark_individuals(&self) -> (r: Option<Benchmark>)
        ensures
            self.programs@.len() == 0 ==> r.is_none(),
            self.programs@.len() > 0 ==> r == Some(
                Benchmark {
                    worst: self.programs@[0].fitness,
                    median: self.programs@[(self.programs@.len() / 2) as int].fitness,
                    best: self.programs@.last().fitness,
                },
            ),
    {
        let n = self.programs.len();
        if n == 0 {
            None
        } else {
            Some(
                Benchmark {
                    worst: self.programs[0].fitness,
                    median: self.programs[n / 2].fitness,
                    best: self.programs[n - 1].fitness,
                },
            )
        }
    }

    pub fn len(&self) -> (r: usize)
        ensures
            r == self.programs@.len(),
    {
        self.programs.len()
    }

    pub fn capacity(&self) -> (r: usize)
        ensures
            r == self.capacity,
    {
        self.capacity
    }

    /// Adds a program at the best end; a full population hands it back.
    pub fn push(&mut self, value: Program) -> (r: Result<(), Program>)
        ensures
            final(self).capacity == old(self).capacity,
            old(self).programs@.len() < old(self).capacity ==> r.is_ok() && final(self).programs@
                == old(self).programs@.push(value),
            old(self).programs@.len() >= old(self).capacity ==> r == Err::<(), Program>(value)
                && final(self).programs@ == old(self).programs@,
    {
        if self.programs.len() < self.capacity {
            self.programs.push(value);
            Ok(())
        } else {
            Err(value)
        }
    }

    /// Adds a program at the worst end; a full population hands it back.
    pub fn f_push(&mut self, value: Program) -> (r: Result<(), Program>)
        ensures
            final(self).capacity == old(self).capacity,
            old(self).programs@.len() < old(self).capacity ==> r.is_ok() && final(self).programs@
                == seq![value] + old(self).programs@,
            old(self).programs@.len() >= old(self).capacity ==> r == Err::<(), Program>(value)
                && final(self).programs@ == old(self).programs@,
    {
        if self.programs.len() < self.capacity {
            self.programs.insert(0, value);
            proof {
                assert(self.programs@ =~= seq![value] + old(self).programs@);
            }
            Ok(())
        } else {
            Err(value)
        }
    }

    /// Removes and returns the program at the worst end.
    pub fn f_pop(&mut self) -> (r: Option<Program>)
        ensures
            final(self).capacity == old(self).capacity,
            old(self).programs@.len() > 0 ==> r == Some(old(self).programs@[0]) && final(self).programs@
                == old(self).programs@.drop_first(),
            old(self).programs@.len() == 0 ==> r.is_none() && final(self).programs@ == old(self).programs@,
    {
        if self.programs.len() > 0 {
            let p = self.programs.remove(0);
            proof {
                assert(self.programs@ =~= old(self).programs@.drop_first());
            }
            Some(p)
        } else {
            None
        }
    }

    /// Sorts the programs ascending by cached fitness, unevaluated ones first.
    pub fn sort(&mut self)
        ensures
            final(self).capacity == old(self).capacity,
            is_ranked(final(self).programs@),
            final(self).programs@.to_multiset() == old(self).programs@.to_multiset(),
    {
        broadcast use vstd::multiset::group_multiset_axioms, vstd::seq_lib::group_to_multiset_ensures;

        let ghost original = self.programs@;
        let mut sorted: Vec<Program> = Vec::new();
        proof {
            assert(sorted@.to_multiset().add(self.programs@.to_multiset()) =~= original.to_multiset());
        }
        while self.programs.len() > 0
            invariant
                is_ranked(sorted@),
                sorted@.to_multiset().add(self.programs@.to_multiset()) == original.to_multiset(),
                self.capacity == old(self).capacity,
            decreases self.programs@.len(),
        {
            let ghost before = self.programs@;
            let ghost sorted_before = sorted@;
            let p = self.programs.pop().unwrap();
            proof {
                to_multiset_remove(before, before.len() - 1);
                assert(before.remove(before.len() - 1) =~= self.programs@);
            }
            let mut position: usize = 0;
            while position < sorted.len() && fitness_le_exec(sorted[position].fitness, p.fitness)
                invariant
                    0 <= position <= sorted@.len(),
                    sorted@ == sorted_before,
                    forall|k: int| 0 <= k < position ==> fitness_le(#[trigger] sorted@[k].fitness, p.fitness),
                decreases sorted@.len() - position,
            {
                position = position + 1;
            }
            sorted.insert(position, p);
            proof {
                to_multiset_insert(sorted_before, position as int, p);
                let s = sorted@;
                assert forall|i: int, j: int| 0 <= i < j < s.len() implies fitness_le(
                    #[trigger] s[i].fitness,
                    #[trigger] s[j].fitness,
                ) by {
                    if j == position {
                        assert(s[i] == sorted_before[i]);
                    } else if i == position {
                        assert(s[j] == sorted_before[j - 1]);
                        assert(!fitness_le(sorted_before[position as int].fitness, p.fitness));
                        if j - 1 > position {
                            assert(fitness_le(sorted_before[position as int].fitness, sorted_before[j - 1].fitness));
                        }
                    } else {
                        let oi = if i < position { i } else { i - 1 };
                        let oj = if j < position { j } else { j - 1 };
                        assert(s[i] == sorted_before[oi]);
                        assert(s[j] == sorted_before[oj]);
                    }
                }
                assert(sorted@ == sorted_before.insert(position as int, p));
                assert(p == before[before.len() - 1]);
                assert(before.contains(p));
                vstd::seq_lib::to_multiset_contains(before, p);
                assert(before.to_multiset().count(p) > 0);
                assert(before.to_multiset() =~= self.programs@.to_multiset().insert(p));
                assert(sorted@.to_multiset() =~= sorted_before.to_multiset().insert(p));
                assert(sorted@.to_multiset().add(self.programs@.to_multiset()) =~= original.to_multiset());
            }
        }
        proof {
            assert(self.programs@.to_multiset() =~= Multiset::empty());
            assert(sorted@.to_multiset() =~= original.to_multiset());
        }
        self.programs = sorted;
    }
}

} // verus!
