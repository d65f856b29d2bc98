pub mod algorithm;
pub mod characteristics;
pub mod classification;
pub mod fixtures;
pub mod instruction;
pub mod iris;
pub mod linked_list;
pub mod metrics;
pub mod population;
pub mod program;
pub mod random;
pub mod registers;
pub mod reinforcement_learning;
