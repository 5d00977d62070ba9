//! Core of a JSON query language interpreter.
//!
//! A query is a tree of filter expressions; evaluating a filter on a JSON
//! value yields a sequence of value-or-error outcomes.  The evaluator is
//! verified against a mathematical semantics of the filter language.

pub mod filter;
pub mod intr;
pub mod json;
pub mod laws;
pub mod ops;
pub mod parse;
pub mod path;
pub mod rc_list;
pub mod roundtrip;
pub mod run;
pub mod sem;
pub mod search;
pub mod sorting;
pub mod strs;
pub mod val;

use vstd::prelude::*;

verus! {

/// The number of distinct value shapes of the model.
pub fn value_kind_count() -> (n: u64)
    ensures
        n == 6,
{
    6
}

} // verus!
