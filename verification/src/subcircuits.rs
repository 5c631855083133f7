//! Subcircuits that circuits are assembled from.
pub mod summarized;
pub mod unpruned;
pub mod propagate;
pub mod make_tree;
pub mod verify_address;
pub mod unbounded;
pub mod bounded;
