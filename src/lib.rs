use vstd::prelude::*;

pub mod cells;
pub mod group_key;
pub mod groups;
pub mod job;
pub mod list;
pub mod rows;
pub mod selection;

verus! {

} // verus!
