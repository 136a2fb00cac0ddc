//! A vector index that keeps its points in a key-value store and mirrors them in an in-memory
//! segment.

use vstd::prelude::*;

pub mod bytes;
pub mod catalog;
pub mod change;
pub mod change_laws;
pub mod codec;
pub mod dirs;
pub mod float;
pub mod float_laws;
pub mod index;
pub mod key_laws;
pub mod knn;
pub mod laws;
pub mod model;
pub mod qv;
pub mod qv_laws;
pub mod rebuild;
pub mod segment;
pub mod slot;
pub mod state_laws;
pub mod store;
pub mod transactions;
pub mod vector;
