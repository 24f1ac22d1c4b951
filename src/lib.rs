//! A channel picker: fuzzy matching of a query against channel names, and
//! the picker state that shows the latest query's matches and a selection.
use vstd::prelude::*;

pub mod matcher;
pub mod picker;
pub mod repository;
pub mod store;

verus! {

} // verus!
