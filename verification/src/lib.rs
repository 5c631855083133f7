//! Recursive proofs over events and state: the circuits are planned here, as
//! lists of constraints whose meaning is proven, and replayed by a prover.
pub mod circuit;
pub mod circuits;
pub mod event;
pub mod field;
pub mod gadgets;
pub mod generate;
pub mod indices;
pub mod subcircuits;

pub use event::{Event, EventFlags, EventType};
pub use gadgets::hash_is_zero;
