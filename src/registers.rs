use vstd::prelude::*;

verus! {

/// The scalar held by one register: a signed fixed-point quantity whose
/// arithmetic saturates at the bounds of `i64`.
pub type RegisterValue = i64;

/// A register bank of `n` zeroes.
pub open spec fn zeroes(n: nat) -> Seq<RegisterValue> {
    Seq::new(n, |_i: int| 0i64)
}

/// `s[i]` is no smaller than any value of `s` in `[start, end)`.
pub open spec fn is_max_in(s: Seq<RegisterValue>, start: int, end: int, i: int) -> bool {
    forall|j: int| start <= j < end ==> #[trigger] s[j] <= s[i]
}

/// `r` lists, in increasing order, exactly the indices of `[start, end)` at
/// which `s` attains its maximum over that range.
pub open spec fn is_tied_argmax(s: Seq<RegisterValue>, start: int, end: int, r: Seq<usize>) -> bool {
    &&& forall|k: int| 0 <= k < r.len() ==> start <= #[trigger] r[k] < end
    &&& forall|k: int| 0 <= k < r.len() ==> is_max_in(s, start, end, #[trigger] r[k] as int)
    &&& forall|k: int, l: int| 0 <= k < l < r.len() ==> #[trigger] r[k] < #[trigger] r[l]
    &&& forall|i: int| start <= i < end && is_max_in(s, start, end, i) ==> r.contains(i as usize)
}

/// A fixed-length bank of registers.
#[derive(Debug, Clone, PartialEq, Eq, PartialOrd, Ord)]
pub struct Registers {
    values: Vec<RegisterValue>,
}

impl View for Registers {
    type V = Seq<RegisterValue>;

    closed spec fn view(&self) -> Seq<RegisterValue> {
        self.values@
    }
}

impl Registers {
    /// A bank of `n_registers` zeroed registers.
    pub fn new(n_registers: usize) -> (r: Registers)
        ensures
            r@ == zeroes(n_registers as nat),
    {
        let values = vec![0i64; n_registers];
        proof {
            assert(values@ =~= zeroes(n_registers as nat));
        }
        Registers { values }
    }

    /// A bank holding exactly the given values.
    pub fn from(vec: Vec<RegisterValue>) -> (r: Registers)
        ensures
            r@ == vec@,
    {
        Registers { values: vec }
    }

    /// Sets every register back to zero; the length is kept.
    pub fn reset(&mut self)
        ensures
            final(self)@ == zeroes(old(self)@.len()),
    {
        let n = self.values.len();
        let mut index: usize = 0;
        while index < n
            invariant
                self.values@.len() == n,
                0 <= index <= n,
                forall|j: int| 0 <= j < index ==> self.values@[j] == 0,
            decreases n - index,
        {
            self.values.set(index, 0);
            index = index + 1;
        }
        proof {
            assert(self.values@ =~= zeroes(n as nat));
        }
    }

    pub fn len(&self) -> (r: usize)
        ensures
            r == self@.len(),
    {
        self.values.len()
    }

    /// Writes `value` into register `index`.
    pub fn update(&mut self, index: usize, value: RegisterValue)
        requires
            index < old(self)@.len(),
        ensures
            final(self)@ == old(self)@.update(index as int, value),
    {
        self.values.set(index, value);
    }

    /// The value of register `index`.
    pub fn get_value_at_index(&self, index: usize) -> (r: RegisterValue)
        requires
            index < self@.len(),
        ensures
            r == self@[index as int],
    {
        self.values[index]
    }

    /// A copy of the `length` registers that start at `start`.
    pub fn slice(&self, start: usize, length: usize) -> (r: Vec<RegisterValue>)
        requires
            start + length <= self@.len(),
        ensures
            r@ == self@.subrange(start as int, start + length),
    {
        let mut out: Vec<RegisterValue> = Vec::new();
        let total = self.values.len();
        let stop = start + length;
        let mut index: usize = start;
        while index < stop
            invariant
                stop == start + length,
                start <= index <= stop,
                stop <= total,
                total == self.values@.len(),
                out@ == self.values@.subrange(start as int, index as int),
            decreases start + length - index,
        {
            out.push(self.values[index]);
            index = index + 1;
            proof {
                assert(out@ =~= self.values@.subrange(start as int, index as int));
            }
        }
        out
    }

    /// All the indices of `[start, end)` whose register holds the maximum of
    /// that range, in increasing order. Ties are all reported.
    pub fn argmax(&self, start: usize, end: usize) -> (r: Vec<usize>)
        requires
            start < end <= self@.len(),
        ensures
            is_tied_argmax(self@, start as int, end as int, r@),
            r@.len() > 0,
    {
        let s = Ghost(self.values@);
        let mut best: usize = start;
        let mut index: usize = start + 1;
        while index < end
            invariant
                start <= best < index <= end,
                end <= self.values@.len(),
                s@ == self.values@,
                forall|j: int| start <= j < index ==> #[trigger] s@[j] <= s@[best as int],
            decreases end - index,
        {
            if self.values[index] > self.values[best] {
                best = index;
            }
            index = index + 1;
        }
        let max_value = self.values[best];
        let mut ties: Vec<usize> = Vec::new();
        let mut index: usize = start;
        while index < end
            invariant
                start <= best < end,
                start <= index <= end,
                end <= self.values@.len(),
                s@ == self.values@,
                max_value == s@[best as int],
                is_max_in(s@, start as int, end as int, best as int),
                forall|k: int| 0 <= k < ties@.len() ==> start <= #[trigger] ties@[k] < index,
                forall|k: int| 0 <= k < ties@.len() ==> is_max_in(s@, start as int, end as int, #[trigger] ties@[k] as int),
                forall|k: int, l: int| 0 <= k < l < ties@.len() ==> #[trigger] ties@[k] < #[trigger] ties@[l],
                forall|i: int| start <= i < index && is_max_in(s@, start as int, end as int, i) ==> ties@.contains(i as usize),
            decreases end - index,
        {
            if self.values[index] == max_value {
                proof {
                    assert forall|j: int| start <= j < end implies #[trigger] s@[j] <= s@[index as int] by {
                        assert(s@[j] <= s@[best as int]);
                    }
                }
                let ghost before = ties@;
                ties.push(index);
                proof {
                    assert(ties@[ties@.len() - 1] == index);
                    assert forall|i: int| start <= i <= index && is_max_in(s@, start as int, end as int, i)
                        implies ties@.contains(i as usize) by {
                        if i < index {
                            let k = choose|k: int| 0 <= k < before.len() && before[k] == i as usize;
                            assert(ties@[k] == i as usize);
                        }
                    }
                }
            } else {
                proof {
                    if is_max_in(s@, start as int, end as int, index as int) {
                        assert(s@[best as int] <= s@[index as int]);
                        assert(s@[index as int] <= s@[best as int]);
                    }
                }
            }
            index = index + 1;
        }
        ties
    }
}

/// A task input's shape in registers: how many classes it is scored over
/// and how many features it offers.
pub trait RegisterRepresentable {
    fn get_number_classes() -> usize;

    fn get_number_features() -> usize;
}

/// A register bank paired with one of its indices.
#[derive(Debug, Clone)]
pub struct CollectionIndexPair(pub Registers, pub usize);

impl CollectionIndexPair {
    pub fn new(data: Registers, index: usize) -> (r: CollectionIndexPair)
        ensures
            r.0 == data,
            r.1 == index,
    {
        CollectionIndexPair(data, index)
    }

    /// The value of the register at the pair's index.
    pub fn get_value(&self) -> (r: RegisterValue)
        requires
            self.1 < self.0@.len(),
        ensures
            r == self.0@[self.1 as int],
    {
        self.0.get_value_at_index(self.1)
    }

    pub fn get_index(&self) -> (r: usize)
        ensures
            r == self.1,
    {
        self.1
    }
}

} // verus!
