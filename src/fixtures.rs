use crate::classification::ClassificationInput;
use crate::registers::{RegisterRepresentable, RegisterValue};
use vstd::prelude::*;

verus! {

/// The two classes of [`TestInput`].
#[derive(Debug, Clone, Copy, PartialEq, Eq, Structural, PartialOrd, Ord, Hash)]
pub enum TestRepresent {
    One,
    Two,
}

impl TestRepresent {
    /// The class of an index, if it names one.
    pub fn from_index(index: usize) -> (r: Option<TestRepresent>)
        ensures
            index == 0 ==> r == Some(TestRepresent::One),
            index == 1 ==> r == Some(TestRepresent::Two),
            index > 1 ==> r.is_none(),
    {
        if index == 0 {
            Some(TestRepresent::One)
        } else if index == 1 {
            Some(TestRepresent::Two)
        } else {
            None
        }
    }
}

/// A small binary classification record: four features followed by the
/// class index.
#[derive(Debug, Clone, Copy, PartialEq, Eq, PartialOrd, Ord)]
pub struct TestInput(pub [usize; 5]);

/// A feature as a register value, saturating at the top of the range.
pub open spec fn feature_value(x: usize) -> RegisterValue {
    if x > i64::MAX {
        i64::MAX
    } else {
        x as i64
    }
}

fn to_register(x: usize) -> (r: RegisterValue)
    ensures
        r == feature_value(x),
{
    if (x as u128) > (i64::MAX as u128) {
        i64::MAX
    } else {
        x as i64
    }
}

impl ClassificationInput for TestInput {
    open spec fn features_spec(&self) -> Seq<RegisterValue> {
        seq![
            feature_value(self.0@[0]),
            feature_value(self.0@[1]),
            feature_value(self.0@[2]),
            feature_value(self.0@[3]),
        ]
    }

    open spec fn class_spec(&self) -> usize {
        self.0@[4]
    }

    fn get_features(&self) -> (r: Vec<RegisterValue>) {
        let r = vec![
            to_register(self.0[0]),
            to_register(self.0[1]),
            to_register(self.0[2]),
            to_register(self.0[3]),
        ];
        proof {
            assert(r@ =~= self.features_spec());
        }
        r
    }

    fn get_class(&self) -> (r: usize) {
        self.0[4]
    }
}

impl RegisterRepresentable for TestInput {
    fn get_number_classes() -> (r: usize)
        ensures
            r == 2,
    {
        2
    }

    fn get_number_features() -> (r: usize)
        ensures
            r == 4,
    {
        4
    }
}

} // verus!
