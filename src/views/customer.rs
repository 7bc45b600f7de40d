use vstd::prelude::*;

verus! {

/// A customer with the totals of its invoices: how many there are, and the
/// sums of the pending and of the paid amounts. A sum is absent (`None`)
/// when no invoice of the customer has that status, which is not the same
/// as a sum of zero.
#[derive(Clone, Debug, PartialEq, Eq)]
pub struct GetFilteredCustomer {
    pub id: u128,
    pub name: String,
    pub email: String,
    pub image_url: String,
    pub total_invoices: i64,
    pub total_pending: Option<i64>,
    pub total_paid: Option<i64>,
}

} // verus!
