//! The building blocks of the recursive circuits.
pub mod accumulate_delta;
pub mod match_delta;
pub mod merge;
pub mod state_update;
pub mod verify_block;
pub mod verify_program;
pub mod verify_tx;
pub mod build_event_root;
