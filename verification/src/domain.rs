//! What the rest of the program speaks of.
use vstd::prelude::*;

verus! {

/// A customer in short.
#[derive(Debug, Clone)]
pub struct Customer {
    pub id: i64,
    pub name: String,
    pub currency: String,
    pub timezone: String,
}

} // verus!
