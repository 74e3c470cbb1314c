//! Sparse commitment trees and predicate statements for anonymous
//! credentials, with the rules that bind a membership proof and a predicate
//! proof to one attribute commitment.

pub mod binding;
pub mod bytes;
pub mod com_tree;
pub mod groth16;
pub mod hash;
pub mod laws;
pub mod merkle;
pub mod path;
pub mod pred;
pub mod proof_data_structures;
