//! Two small linked containers with verified contracts: an unbalanced binary
//! search tree and a singly linked list with constant-time push at both ends.

pub mod btree;
pub mod list;
pub mod list_laws;
pub mod order;
pub mod shape;
pub mod tree_laws;
