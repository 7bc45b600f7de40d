use vstd::prelude::*;

use crate::models::customers::Customer;
use crate::models::invoices::Model;
use crate::models::Date;

verus! {

/// An invoice's identifier and amount with its customer's display fields.
#[derive(Clone, Debug, PartialEq, Eq)]
pub struct GetAllLatestInvoice {
    pub id: u128,
    pub name: String,
    pub image_url: String,
    pub email: String,
    pub amount: i32,
}

/// An invoice's fields with its customer's display fields.
#[derive(Clone, Debug, PartialEq, Eq)]
pub struct GetFilteredInvoice {
    pub id: u128,
    pub customer_id: u128,
    pub name: String,
    pub email: String,
    pub image_url: String,
    pub amount: i32,
    pub date: Date,
    pub status: String,
}

impl GetFilteredInvoice {
    /// The row that joins invoice `inv` with customer `c`.
    pub open spec fn of(inv: Model, c: Customer) -> GetFilteredInvoice {
        GetFilteredInvoice {
            id: inv.id,
            customer_id: inv.customer_id,
            name: c.name,
            email: c.email,
            image_url: c.image_url,
            amount: inv.amount,
            date: inv.date,
            status: inv.status,
        }
    }

    /// The part of the row that the latest-invoices listing shows.
    pub open spec fn latest(&self) -> GetAllLatestInvoice {
        GetAllLatestInvoice {
            id: self.id,
            name: self.name,
            image_url: self.image_url,
            email: self.email,
            amount: self.amount,
        }
    }

    /// Joins invoice `inv` with customer `c`.
    pub fn join(inv: &Model, c: &Customer) -> (r: GetFilteredInvoice)
        ensures
            r == Self::of(*inv, *c),
    {
        GetFilteredInvoice {
            id: inv.id,
            customer_id: inv.customer_id,
            name: c.name.clone(),
            email: c.email.clone(),
            image_url: c.image_url.clone(),
            amount: inv.amount,
            date: inv.date,
            status: inv.status.clone(),
        }
    }

    /// A copy of the row.
    pub fn copied(&self) -> (r: GetFilteredInvoice)
        ensures
            r == *self,
    {
        GetFilteredInvoice {
            id: self.id,
            customer_id: self.customer_id,
            name: self.name.clone(),
            email: self.email.clone(),
            image_url: self.image_url.clone(),
            amount: self.amount,
            date: self.date,
            status: self.status.clone(),
        }
    }

    /// The part of the row that the latest-invoices listing shows.
    pub fn to_latest(&self) -> (r: GetAllLatestInvoice)
        ensures
            r == self.latest(),
    {
        GetAllLatestInvoice {
            id: self.id,
            name: self.name.clone(),
            image_url: self.image_url.clone(),
            email: self.email.clone(),
            amount: self.amount,
        }
    }
}

} // verus!
