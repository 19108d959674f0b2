//! A feedforward neural network library whose structural logic is verified.
//!
//! The network is generic over its weight type: the layered shape of the
//! weights, the construction of a network from its layer sizes, the
//! traversals that run the network forward, backpropagate errors and apply
//! weight updates, and the schedule that decides when training logs and
//! halts are all stated and proved here. The numeric kernels that act on
//! single weights are handed in by the caller.

pub mod network;
pub mod options;
pub mod schedule;
pub mod zip;

pub use network::{check_sizes, ExampleError, Network, SizesError};
pub use options::LearningMode;
pub use schedule::{HaltRule, Step, TrainingSchedule};
pub use zip::iter_zip_enum;
