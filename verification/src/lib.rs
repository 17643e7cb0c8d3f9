//! Simple parsing tools.
use vstd::prelude::*;

pub mod atomlist;
pub mod atoms;
pub mod chains;
pub mod parsable;
pub mod parser;
pub mod pos;
pub mod predicates;
pub mod text;
pub mod toolerr;
pub mod tools;
pub mod utils;
pub mod view;
pub mod viewerr;

verus! {
} // verus!
