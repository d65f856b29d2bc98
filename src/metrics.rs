use crate::program::FitnessScore;
use vstd::prelude::*;

verus! {

/// The score of a perfect classifier: accuracy is reported in millionths.
pub const ACCURACY_SCALE: i64 = 1_000_000;

/// Something that observes a stream of values and reports a result.
pub trait Metric {
    type ObservableType;
    type ResultType;

    /// The metric can take one more observation.
    spec fn has_room(&self) -> bool;

    fn observe(&mut self, value: Self::ObservableType)
        requires
            old(self).has_room(),
    ;

    fn calculate(&self) -> Self::ResultType;
}

/// A prediction paired with the truth it is scored against.
pub type Observation = (Option<usize>, Option<usize>);

/// An observation counts as a hit when both sides are present and equal.
pub open spec fn is_hit(o: Observation) -> bool {
    o.0.is_some() && o.0 == o.1
}

/// The counts `(hits, observations)` after one more observation.
pub open spec fn observe_spec(counts: (nat, nat), o: Observation) -> (nat, nat) {
    (counts.0 + if is_hit(o) { 1nat } else { 0nat }, counts.1 + 1)
}

/// The counts after observing `s` in order.
pub open spec fn observe_all(counts: (nat, nat), s: Seq<Observation>) -> (nat, nat)
    decreases s.len(),
{
    if s.len() == 0 {
        counts
    } else {
        observe_spec(observe_all(counts, s.drop_last()), s.last())
    }
}

/// The number of hits in `s`.
pub open spec fn hits_in(s: Seq<Observation>) -> nat
    decreases s.len(),
{
    if s.len() == 0 {
        0
    } else {
        hits_in(s.drop_last()) + if is_hit(s.last()) { 1nat } else { 0nat }
    }
}

/// `correct / total` in millionths, rounded down; zero when nothing was seen.
pub open spec fn accuracy_spec(correct: nat, total: nat) -> int {
    if total == 0 {
        0
    } else {
        (correct * ACCURACY_SCALE as nat / total) as int
    }
}

/// Counts of correct predictions and of observations.
#[derive(Clone, Copy, Debug, PartialEq, Eq, Structural)]
pub struct Accuracy(pub usize, pub usize);

impl Accuracy {
    pub open spec fn counts(&self) -> (nat, nat) {
        (self.0 as nat, self.1 as nat)
    }

    pub open spec fn wf(&self) -> bool {
        self.0 <= self.1
    }

    pub fn new(initial_correct: usize, total_counted: usize) -> (r: Accuracy)
        ensures
            r.0 == initial_correct,
            r.1 == total_counted,
    {
        Accuracy(initial_correct, total_counted)
    }
}

impl Metric for Accuracy {
    type ObservableType = Observation;
    type ResultType = FitnessScore;

    open spec fn has_room(&self) -> bool {
        self.wf() && self.1 < usize::MAX
    }

    fn observe(&mut self, value: Observation)
        ensures
            final(self).counts() == observe_spec(old(self).counts(), value),
            final(self).wf(),
    {
        let hit = match value {
            (Some(predicted), Some(truth)) => predicted == truth,
            _ => false,
        };
        if hit {
            self.0 = self.0 + 1;
        }
        self.1 = self.1 + 1;
    }

    fn calculate(&self) -> (r: FitnessScore)
        ensures
            self.wf() ==> r == accuracy_spec(self.0 as nat, self.1 as nat),
            self.wf() ==> 0 <= r <= ACCURACY_SCALE,
    {
        if self.1 == 0 || self.0 > self.1 {
            0
        } else {
            let wide = (self.0 as u128) * (ACCURACY_SCALE as u128);
            let ratio = wide / (self.1 as u128);
            proof {
                let c = self.0 as int;
                let t = self.1 as int;
                assert(c * ACCURACY_SCALE <= t * ACCURACY_SCALE) by (nonlinear_arith)
                    requires c <= t;
                assert((c * ACCURACY_SCALE) / t <= (t * ACCURACY_SCALE) / t) by (nonlinear_arith)
                    requires c * ACCURACY_SCALE <= t * ACCURACY_SCALE, t > 0;
                assert((t * ACCURACY_SCALE) / t == ACCURACY_SCALE) by (nonlinear_arith)
                    requires t > 0;
            }
            ratio as i64
        }
    }
}

/// Observing one pair then another gives the counts of observing them in
/// the other order.
pub proof fn lemma_observe_commutative(counts: (nat, nat), a: Observation, b: Observation)
    ensures
        observe_spec(observe_spec(counts, a), b) == observe_spec(observe_spec(counts, b), a),
{
}

/// Observing a stream in two parts, the second from the counts the first
/// left, gives the counts of observing it whole.
pub proof fn lemma_observe_associative(counts: (nat, nat), s1: Seq<Observation>, s2: Seq<Observation>)
    ensures
        observe_all(observe_all(counts, s1), s2) == observe_all(counts, s1 + s2),
    decreases s2.len(),
{
    if s2.len() == 0 {
        assert(s1 + s2 =~= s1);
    } else {
        lemma_observe_associative(counts, s1, s2.drop_last());
        assert((s1 + s2).drop_last() =~= s1 + s2.drop_last());
        assert((s1 + s2).last() == s2.last());
    }
}

/// The counts after a stream are the starting counts plus its hits and its
/// length, whatever the order of the stream.
pub proof fn lemma_observe_all_counts(counts: (nat, nat), s: Seq<Observation>)
    ensures
        observe_all(counts, s) == (counts.0 + hits_in(s), counts.1 + s.len()),
    decreases s.len(),
{
    if s.len() > 0 {
        lemma_observe_all_counts(counts, s.drop_last());
    }
}

pub proof fn lemma_hits_in_append(s1: Seq<Observation>, s2: Seq<Observation>)
    ensures
        hits_in(s1 + s2) == hits_in(s1) + hits_in(s2),
    decreases s2.len(),
{
    if s2.len() == 0 {
        assert(s1 + s2 =~= s1);
    } else {
        lemma_hits_in_append(s1, s2.drop_last());
        assert((s1 + s2).drop_last() =~= s1 + s2.drop_last());
    }
}

/// Swapping two parts of a stream leaves the counts as they were.
pub proof fn lemma_observe_order_free(counts: (nat, nat), s1: Seq<Observation>, s2: Seq<Observation>)
    ensures
        observe_all(counts, s1 + s2) == observe_all(counts, s2 + s1),
{
    lemma_observe_all_counts(counts, s1 + s2);
    lemma_observe_all_counts(counts, s2 + s1);
    lemma_hits_in_append(s1, s2);
    lemma_hits_in_append(s2, s1);
}

} // verus!
