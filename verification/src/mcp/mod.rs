//! Remote tools of the parent session. Discovery, activation, permission and
//! connection are separate.
use vstd::prelude::*;

pub mod catalog;
pub mod manager;
pub mod results;
pub mod schema;

verus! {

} // verus!
