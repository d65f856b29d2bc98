use crate::instruction::{saturate_spec, Executable};
use crate::characteristics::Fitness;
use crate::program::{FitnessScore, Program};
use crate::random::below;
use crate::registers::{is_tied_argmax, RegisterValue, Registers};
use rand::rngs::StdRng;
use vstd::multiset::Multiset;
use vstd::prelude::*;
use vstd::relations::{sorted_by, total_ordering};
use vstd::seq_lib::{lemma_sorted_unique, to_multiset_insert, to_multiset_remove};

verus! {

/// The reward of one step, and whether the episode ended with it.
#[derive(Clone, Copy, Debug, PartialEq, Eq, Structural)]
pub enum Reward {
    Continue(RegisterValue),
    Terminal(RegisterValue),
}

/// What an environment answers to an action.
#[derive(Clone, Debug)]
pub struct StateRewardPair {
    pub state: Vec<RegisterValue>,
    pub reward: Reward,
}

impl StateRewardPair {
    pub open spec fn value_spec(&self) -> RegisterValue {
        match self.reward {
            Reward::Continue(v) => v,
            Reward::Terminal(v) => v,
        }
    }

    pub fn get_value(&self) -> (r: RegisterValue)
        ensures
            r == self.value_spec(),
    {
        match self.reward {
            Reward::Continue(reward) => reward,
            Reward::Terminal(reward) => reward,
        }
    }

    pub fn is_terminal(&self) -> (r: bool)
        ensures
            r == (self.reward is Terminal),
    {
        match self.reward {
            Reward::Continue(_) => false,
            Reward::Terminal(_) => true,
        }
    }
}

/// A call made on an environment, as the evaluator's history records it.
pub enum EnvEvent {
    Init,
    Act(usize, StateRewardPair),
    Reset,
    Finish,
}

/// An environment that a program acts in, episode after episode.
pub trait ReinforcementLearningInput {
    /// Called once before the first episode.
    fn init(&mut self);

    /// Performs an action and reports the new state and the reward.
    fn act(&mut self, action: usize) -> StateRewardPair;

    /// Called after each episode.
    fn reset(&mut self);

    /// The current state, as the program reads it.
    fn get_state(&self) -> Vec<RegisterValue>;

    /// Called once after the last episode.
    fn finish(&mut self);
}

/// One step of an episode: the action taken and what the environment
/// answered.
pub type Step = (usize, StateRewardPair);

/// What an episode's steps got back.
pub open spec fn outcomes_of(ep: Seq<Step>) -> Seq<StateRewardPair> {
    ep.map_values(|s: Step| s.1)
}

/// The score of a stream of outcomes from `acc` on: rewards are added,
/// saturating, up to and including the first terminal one.
pub open spec fn score_from(acc: i64, outcomes: Seq<StateRewardPair>) -> i64
    decreases outcomes.len(),
{
    if outcomes.len() == 0 {
        acc
    } else {
        let next = saturate_spec(acc + outcomes[0].value_spec());
        if outcomes[0].reward is Terminal {
            next
        } else {
            score_from(next, outcomes.drop_first())
        }
    }
}

/// The score of an episode's outcomes.
pub open spec fn episode_score_spec(outcomes: Seq<StateRewardPair>) -> i64 {
    score_from(0, outcomes)
}

/// An episode as the evaluator plays it: at most `max_len` steps, each
/// action one of the first `n_actions`, no step after a terminal reward,
/// and fewer than `max_len` steps only when the last reward is terminal.
pub open spec fn episode_ok(ep: Seq<Step>, max_len: nat, n_actions: nat) -> bool {
    &&& ep.len() <= max_len
    &&& forall|k: int| 0 <= k < ep.len() ==> (#[trigger] ep[k]).0 < n_actions
    &&& forall|k: int| 0 <= k < ep.len() - 1 ==> !((#[trigger] ep[k]).1.reward is Terminal)
    &&& ep.len() < max_len ==> ep.len() > 0 && ep.last().1.reward is Terminal
}

/// The calls of an episode's steps.
pub open spec fn episode_events(ep: Seq<Step>) -> Seq<EnvEvent> {
    ep.map_values(|s: Step| EnvEvent::Act(s.0, s.1))
}

/// The calls of a series of episodes, each followed by a reset.
pub open spec fn runs_events(eps: Seq<Seq<Step>>) -> Seq<EnvEvent>
    decreases eps.len(),
{
    if eps.len() == 0 {
        Seq::empty()
    } else {
        runs_events(eps.drop_last()) + episode_events(eps.last()).push(EnvEvent::Reset)
    }
}

/// The scores of a series of episodes.
pub open spec fn episode_scores(eps: Seq<Seq<Step>>) -> Seq<i64> {
    eps.map_values(|ep: Seq<Step>| episode_score_spec(outcomes_of(ep)))
}

/// `eps` are `n_runs` episodes as the evaluator plays them.
pub open spec fn episodes_ok(eps: Seq<Seq<Step>>, n_runs: nat, max_len: nat, n_actions: nat) -> bool {
    &&& eps.len() == n_runs
    &&& forall|i: int| 0 <= i < eps.len() ==> episode_ok(#[trigger] eps[i], max_len, n_actions)
}

/// The score of an episode's outcomes: the rewards added up, saturating,
/// up to and including the first terminal one.
pub fn episode_score(outcomes: &Vec<StateRewardPair>) -> (r: i64)
    ensures
        r == episode_score_spec(outcomes@),
{
    let mut acc: i64 = 0;
    let mut index: usize = 0;
    proof {
        assert(outcomes@.skip(0) =~= outcomes@);
    }
    while index < outcomes.len()
        invariant
            0 <= index <= outcomes@.len(),
            score_from(0, outcomes@) == score_from(acc, outcomes@.skip(index as int)),
        decreases outcomes@.len() - index,
    {
        let ghost rest = outcomes@.skip(index as int);
        let next = add_reward(acc, outcomes[index].get_value());
        if outcomes[index].is_terminal() {
            return next;
        }
        proof {
            assert(rest.drop_first() =~= outcomes@.skip(index + 1));
        }
        acc = next;
        index = index + 1;
    }
    acc
}

/// The settings of an episodic evaluation.
pub struct ReinforcementLearningParameters<T> {
    pub n_runs: usize,
    pub max_episode_length: usize,
    /// How many registers, at the front of the bank, stand for actions.
    pub n_actions: usize,
    pub environment: T,
    /// Every call made on the environment by the evaluator, in order, with
    /// what `act` answered.
    pub history: Ghost<Seq<EnvEvent>>,
}

impl<T> ReinforcementLearningParameters<T> {
    pub fn new(n_runs: usize, max_episode_length: usize, n_actions: usize, environment: T) -> (r: Self)
        ensures
            r.n_runs == n_runs,
            r.max_episode_length == max_episode_length,
            r.n_actions == n_actions,
            r.environment == environment,
            r.history@ == Seq::<EnvEvent>::empty(),
    {
        ReinforcementLearningParameters {
            n_runs,
            max_episode_length,
            n_actions,
            environment,
            history: Ghost(Seq::empty()),
        }
    }
}

pub open spec fn score_le(a: i64, b: i64) -> bool {
    a <= b
}

pub open spec fn scores_ascending(s: Seq<i64>) -> bool {
    forall|i: int, j: int| 0 <= i < j < s.len() ==> #[trigger] s[i] <= #[trigger] s[j]
}

/// The median of a list of scores: the item at index `⌊n / 2⌋` of the
/// scores sorted ascending.
pub open spec fn median_spec(scores: Seq<i64>) -> i64 {
    scores.sort_by(|a: i64, b: i64| score_le(a, b))[(scores.len() / 2) as int]
}

/// The "random tie-break" policy: one of the indices of `[0, n_actions)`
/// holding the maximum, drawn uniformly.
pub fn random_argmax(registers: &Registers, n_actions: usize, rng: &mut StdRng) -> (r: usize)
    requires
        0 < n_actions <= registers@.len(),
    ensures
        r < n_actions,
        forall|j: int| 0 <= j < n_actions ==> #[trigger] registers@[j] <= registers@[r as int],
{
    let ties = registers.argmax(0, n_actions);
    let pick = below(rng, ties.len());
    proof {
        assert(is_tied_argmax(registers@, 0, n_actions as int, ties@));
        assert(0 <= ties@[pick as int] < n_actions);
        assert(crate::registers::is_max_in(registers@, 0, n_actions as int, ties@[pick as int] as int));
    }
    ties[pick]
}

/// The scores in ascending order.
pub fn sort_scores(scores: Vec<i64>) -> (r: Vec<i64>)
    ensures
        sorted_by(r@, |a: i64, b: i64| score_le(a, b)),
        r@.to_multiset() == scores@.to_multiset(),
{
    broadcast use vstd::multiset::group_multiset_axioms, vstd::seq_lib::group_to_multiset_ensures;

    let ghost original = scores@;
    let mut rest = scores;
    let mut sorted: Vec<i64> = Vec::new();
    proof {
        assert(sorted@.to_multiset().add(rest@.to_multiset()) =~= original.to_multiset());
    }
    while rest.len() > 0
        invariant
            scores_ascending(sorted@),
            sorted@.to_multiset().add(rest@.to_multiset()) == original.to_multiset(),
        decreases rest@.len(),
    {
        let ghost before = rest@;
        let ghost sorted_before = sorted@;
        let x = rest.pop().unwrap();
        proof {
            to_multiset_remove(before, before.len() - 1);
            assert(before.remove(before.len() - 1) =~= rest@);
        }
        let mut position: usize = 0;
        while position < sorted.len() && sorted[position] <= x
            invariant
                0 <= position <= sorted@.len(),
                sorted@ == sorted_before,
                forall|k: int| 0 <= k < position ==> #[trigger] sorted@[k] <= x,
            decreases sorted@.len() - position,
        {
            position = position + 1;
        }
        sorted.insert(position, x);
        proof {
            to_multiset_insert(sorted_before, position as int, x);
            let s = sorted@;
            assert forall|i: int, j: int| 0 <= i < j < s.len() implies #[trigger] s[i] <= #[trigger] s[j] by {
                if j == position {
                    assert(s[i] == sorted_before[i]);
                } else if i == position {
                    assert(s[j] == sorted_before[j - 1]);
                    if j - 1 > position {
                        assert(sorted_before[position as int] <= sorted_before[j - 1]);
                    }
                } else {
                    let oi = if i < position { i } else { i - 1 };
                    let oj = if j < position { j } else { j - 1 };
                    assert(s[i] == sorted_before[oi]);
                    assert(s[j] == sorted_before[oj]);
                }
            }
            assert(x == before[before.len() - 1]);
            assert(before.contains(x));
            vstd::seq_lib::to_multiset_contains(before, x);
            assert(before.to_multiset() =~= rest@.to_multiset().insert(x));
            assert(sorted@.to_multiset().add(rest@.to_multiset()) =~= original.to_multiset());
        }
    }
    proof {
        let leq = |a: i64, b: i64| score_le(a, b);
        assert forall|i: int, j: int| 0 <= i < j < sorted@.len() implies #[trigger] leq(sorted@[i], sorted@[j]) by {
            assert(sorted@[i] <= sorted@[j]);
        }
        assert(rest@.to_multiset() =~= Multiset::empty());
        assert(sorted@.to_multiset() =~= original.to_multiset());
    }
    sorted
}

/// The median of the scores.
pub fn median(scores: Vec<i64>) -> (r: i64)
    requires
        scores@.len() > 0,
    ensures
        r == median_spec(scores@),
{
    let ghost original = scores@;
    let sorted = sort_scores(scores);
    proof {
        let leq = |a: i64, b: i64| score_le(a, b);
        assert(total_ordering(leq));
        original.lemma_sort_by_ensures(leq);
        lemma_sorted_unique(sorted@, original.sort_by(leq), leq);
        vstd::seq_lib::to_multiset_len(sorted@);
        vstd::seq_lib::to_multiset_len(original);
    }
    sorted[sorted.len() / 2]
}

/// The episodic fitness of a program: `init`, then `n_runs` episodes of at
/// most `max_episode_length` steps, each step running the program on the
/// current state and acting on the action registers' maximum (ties broken
/// at random), an episode ending early on a terminal reward and followed by
/// `reset`; then `finish`. The fitness is the median of the episodes'
/// scores, and is cached.
pub fn eval_fitness<T: ReinforcementLearningInput>(
    program: &mut Program,
    parameters: &mut ReinforcementLearningParameters<T>,
    rng: &mut StdRng,
) -> (r: FitnessScore)
    requires
        old(parameters).n_runs > 0,
        0 < old(parameters).n_actions <= old(program).registers@.len(),
    ensures
        final(program).instructions == old(program).instructions,
        final(program).registers == old(program).registers,
        final(program).fitness == Some(r),
        final(parameters).n_runs == old(parameters).n_runs,
        final(parameters).max_episode_length == old(parameters).max_episode_length,
        final(parameters).n_actions == old(parameters).n_actions,
        exists|eps: Seq<Seq<Step>>|
            {
                &&& episodes_ok(
                    eps,
                    old(parameters).n_runs as nat,
                    old(parameters).max_episode_length as nat,
                    old(parameters).n_actions as nat,
                )
                &&& final(parameters).history@ == old(parameters).history@
                    + seq![EnvEvent::Init] + runs_events(eps) + seq![EnvEvent::Finish]
                &&& r == median_spec(episode_scores(eps))
            },
{
    let n_actions = parameters.n_actions;
    let max_len = parameters.max_episode_length;
    let ghost h0 = parameters.history@;
    parameters.environment.init();
    parameters.history = Ghost(parameters.history@.push(EnvEvent::Init));
    let ghost mut eps: Seq<Seq<Step>> = Seq::empty();
    let mut scores: Vec<i64> = Vec::new();
    let mut run: usize = 0;
    while run < parameters.n_runs
        invariant
            run <= parameters.n_runs,
            scores@.len() == run,
            eps.len() == run,
            parameters.n_runs == old(parameters).n_runs,
            parameters.max_episode_length == max_len,
            max_len == old(parameters).max_episode_length,
            parameters.n_actions == n_actions,
            n_actions == old(parameters).n_actions,
            0 < n_actions <= program.registers@.len(),
            *program == *old(program),
            parameters.history@ == h0.push(EnvEvent::Init) + runs_events(eps),
            forall|i: int| 0 <= i < eps.len() ==> episode_ok(#[trigger] eps[i], max_len as nat, n_actions as nat),
            scores@ =~= episode_scores(eps),
        decreases parameters.n_runs - run,
    {
        let mut outcomes: Vec<StateRewardPair> = Vec::new();
        let ghost mut ep: Seq<Step> = Seq::empty();
        let mut step: usize = 0;
        let mut finished = false;
        while step < max_len && !finished
            invariant
                step <= max_len,
                ep.len() == step,
                outcomes@ == outcomes_of(ep),
                0 < n_actions <= program.registers@.len(),
                *program == *old(program),
                parameters.n_runs == old(parameters).n_runs,
                parameters.max_episode_length == max_len,
                parameters.n_actions == n_actions,
                parameters.history@ == h0.push(EnvEvent::Init) + runs_events(eps)
                    + episode_events(ep),
                forall|k: int| 0 <= k < ep.len() ==> (#[trigger] ep[k]).0 < n_actions,
                forall|k: int| 0 <= k < ep.len() - 1 ==> !((#[trigger] ep[k]).1.reward is Terminal),
                !finished ==> forall|k: int| 0 <= k < ep.len() ==> !((#[trigger] ep[k]).1.reward is Terminal),
                finished ==> ep.len() > 0 && ep.last().1.reward is Terminal,
            decreases max_len - step,
        {
            let state = parameters.environment.get_state();
            let registers = program.exec(&state);
            proof {
                crate::program::lemma_run_keeps_length(program.instructions@, program.registers@, state@);
            }
            let action = random_argmax(&registers, n_actions, rng);
            let outcome = parameters.environment.act(action);
            parameters.history = Ghost(parameters.history@.push(EnvEvent::Act(action, outcome)));
            finished = outcome.is_terminal();
            proof {
                let s: Step = (action, outcome);
                assert(episode_events(ep.push(s)) =~= episode_events(ep).push(EnvEvent::Act(action, outcome)));
                assert(outcomes_of(ep.push(s)) =~= outcomes_of(ep).push(outcome));
                ep = ep.push(s);
            }
            outcomes.push(outcome);
            step = step + 1;
        }
        let score = episode_score(&outcomes);
        scores.push(score);
        parameters.environment.reset();
        parameters.history = Ghost(parameters.history@.push(EnvEvent::Reset));
        proof {
            let next = eps.push(ep);
            assert(next.drop_last() =~= eps);
            assert(runs_events(next) == runs_events(eps) + episode_events(ep).push(EnvEvent::Reset));
            assert(h0.push(EnvEvent::Init) + runs_events(next) =~= (h0.push(EnvEvent::Init) + runs_events(eps)
                + episode_events(ep)).push(EnvEvent::Reset));
            assert(episode_ok(ep, max_len as nat, n_actions as nat));
            assert(episode_scores(next) =~= episode_scores(eps).push(score));
            eps = next;
        }
        run = run + 1;
    }
    parameters.environment.finish();
    parameters.history = Ghost(parameters.history@.push(EnvEvent::Finish));
    proof {
        assert(parameters.history@ =~= h0 + seq![EnvEvent::Init] + runs_events(eps)
            + seq![EnvEvent::Finish]);
        assert(episodes_ok(eps, old(parameters).n_runs as nat, max_len as nat, n_actions as nat));
    }
    let fitness = median(scores);
    program.fitness = Some(fitness);
    fitness
}

/// `score + reward`, saturating.
pub fn add_reward(score: i64, reward: RegisterValue) -> (r: i64)
    ensures
        r == saturate_spec(score + reward),
{
    Executable::Add.eval(score, reward)
}

impl<T: ReinforcementLearningInput> Fitness for ReinforcementLearningParameters<T> {
    open spec fn can_score(&self, program: Program) -> bool {
        self.n_runs > 0 && 0 < self.n_actions <= program.registers@.len()
    }

    /// The median score of `n_runs` episodes as the evaluator plays them.
    open spec fn scores(&self, program: Program, score: FitnessScore) -> bool {
        exists|eps: Seq<Seq<Step>>|
            episodes_ok(eps, self.n_runs as nat, self.max_episode_length as nat, self.n_actions as nat)
                && score == median_spec(episode_scores(eps))
    }

    fn eval_set_fitness(&mut self, program: &mut Program, rng: &mut StdRng) -> (r: FitnessScore) {
        match program.fitness {
            Some(score) => score,
            None => eval_fitness(program, self, rng),
        }
    }
}

} // verus!
