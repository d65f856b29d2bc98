use crate::classification::ClassificationInput;
use crate::instruction::Executable;
use crate::program::ProgramGenerateParams;
use crate::registers::{RegisterRepresentable, RegisterValue};
use vstd::prelude::*;

verus! {

/// The three species of the Iris dataset, in the order of their class index.
#[derive(Debug, Clone, Copy, PartialEq, Eq, Structural, PartialOrd, Ord, Hash)]
pub enum IrisClass {
    Setosa,
    Versicolour,
    Virginica,
}

impl IrisClass {
    pub open spec fn index_spec(self) -> usize {
        match self {
            IrisClass::Setosa => 0,
            IrisClass::Versicolour => 1,
            IrisClass::Virginica => 2,
        }
    }

    pub fn index(&self) -> (r: usize)
        ensures
            r == self.index_spec(),
    {
        match self {
            IrisClass::Setosa => 0,
            IrisClass::Versicolour => 1,
            IrisClass::Virginica => 2,
        }
    }

    /// The species of a class index, if it names one.
    pub fn from_index(index: usize) -> (r: Option<IrisClass>)
        ensures
            index < 3 ==> r.is_some() && r.unwrap().index_spec() == index,
            index >= 3 ==> r.is_none(),
    {
        if index == 0 {
            Some(IrisClass::Setosa)
        } else if index == 1 {
            Some(IrisClass::Versicolour)
        } else if index == 2 {
            Some(IrisClass::Virginica)
        } else {
            None
        }
    }
}

/// One record of the Iris dataset. The four measurements are fixed-point
/// values in tenths of a centimetre.
#[derive(Debug, Clone, Copy, PartialEq, Eq, Structural, PartialOrd, Ord, Hash)]
pub struct IrisInput {
    pub sepal_length: RegisterValue,
    pub sepal_width: RegisterValue,
    pub petal_length: RegisterValue,
    pub petal_width: RegisterValue,
    pub class: IrisClass,
}

impl ClassificationInput for IrisInput {
    open spec fn features_spec(&self) -> Seq<RegisterValue> {
        seq![self.sepal_length, self.sepal_width, self.petal_length, self.petal_width]
    }

    open spec fn class_spec(&self) -> usize {
        self.class.index_spec()
    }

    fn get_features(&self) -> (r: Vec<RegisterValue>) {
        let r = vec![self.sepal_length, self.sepal_width, self.petal_length, self.petal_width];
        proof {
            assert(r@ =~= self.features_spec());
        }
        r
    }

    fn get_class(&self) -> (r: usize) {
        self.class.index()
    }
}

impl RegisterRepresentable for IrisInput {
    fn get_number_classes() -> (r: usize)
        ensures
            r == 3,
    {
        3
    }

    fn get_number_features() -> (r: usize)
        ensures
            r == 4,
    {
        4
    }
}

/// The Iris classification task.
pub struct IrisLgp;

impl IrisLgp {
    /// The operations Iris programs are built from, in their fixed order.
    pub fn executables() -> (r: Vec<Executable>)
        ensures
            r@ == seq![Executable::Add, Executable::Subtract, Executable::Divide, Executable::Multiply],
    {
        let r = vec![Executable::Add, Executable::Subtract, Executable::Divide, Executable::Multiply];
        proof {
            assert(r@ =~= seq![Executable::Add, Executable::Subtract, Executable::Divide, Executable::Multiply]);
        }
        r
    }

    /// Generation settings for Iris programs: one action register per
    /// species and one input register per measurement.
    pub fn program_params(max_instructions: usize) -> (r: ProgramGenerateParams)
        ensures
            r.max_instructions == max_instructions,
            r.n_action_registers == 3,
            r.n_input_registers == 4,
            r.executables@ == seq![Executable::Add, Executable::Subtract, Executable::Divide, Executable::Multiply],
    {
        ProgramGenerateParams {
            max_instructions,
            n_action_registers: IrisInput::get_number_classes(),
            n_input_registers: IrisInput::get_number_features(),
            executables: IrisLgp::executables(),
        }
    }
}

} // verus!
