use vstd::prelude::*;

pub mod engine;
pub mod options;
pub mod policy;
pub mod tree;

verus! {

} // verus!
