use vstd::prelude::*;

verus! {

/// A row of the customers table.
#[derive(Clone, Debug, PartialEq, Eq)]
pub struct Customer {
    pub id: u128,
    pub name: String,
    pub email: String,
    pub image_url: String,
}

} // verus!
