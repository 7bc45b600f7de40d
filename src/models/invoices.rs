use vstd::prelude::*;

use crate::models::customers::Customer;
use crate::models::{first_invoice_at, has_customer, has_invoice, Date, Db, Error};

verus! {

/// A row of the invoices table. `amount` is in minor currency units;
/// `status` is by convention `pending` or `paid`.
#[derive(Clone, Debug, PartialEq, Eq)]
pub struct Model {
    pub id: u128,
    pub customer_id: u128,
    pub amount: i32,
    pub status: String,
    pub date: Date,
}

/// The fields of a new invoice.
#[derive(Clone, Debug, PartialEq, Eq)]
pub struct InvoiceCreateParams {
    pub customer_id: u128,
    pub amount: i32,
    pub status: String,
    pub date: Date,
}

/// The fields to change on an invoice; `None` leaves a field as it is.
#[derive(Clone, Debug, PartialEq, Eq)]
pub struct InvoiceUpdateParams {
    pub customer_id: Option<u128>,
    pub amount: Option<i32>,
    pub status: Option<String>,
    pub date: Option<Date>,
}

impl InvoiceCreateParams {
    /// The row these fields make under identifier `id`.
    pub open spec fn row(&self, id: u128) -> Model {
        Model {
            id,
            customer_id: self.customer_id,
            amount: self.amount,
            status: self.status,
            date: self.date,
        }
    }
}

impl InvoiceUpdateParams {
    /// `item` with every supplied field replaced and every other one kept.
    pub open spec fn applied_to(&self, item: Model) -> Model {
        Model {
            id: item.id,
            customer_id: match self.customer_id {
                Some(c) => c,
                None => item.customer_id,
            },
            amount: match self.amount {
                Some(a) => a,
                None => item.amount,
            },
            status: match self.status {
                Some(s) => s,
                None => item.status,
            },
            date: match self.date {
                Some(d) => d,
                None => item.date,
            },
        }
    }

    /// Sets on `item` the fields that are supplied.
    pub fn update(&self, item: &mut Model)
        ensures
            *final(item) == self.applied_to(*old(item)),
    {
        if let Some(customer_id) = self.customer_id {
            item.customer_id = customer_id;
        }
        if let Some(amount) = self.amount {
            item.amount = amount;
        }
        if let Some(status) = &self.status {
            item.status = status.clone();
        }
        if let Some(date) = self.date {
            item.date = date;
        }
    }

    /// The update names a customer that does not exist.
    pub open spec fn names_missing_customer(&self, customers: Seq<Customer>) -> bool {
        match self.customer_id {
            Some(c) => !has_customer(customers, c),
            None => false,
        }
    }
}

impl Model {
    /// A copy of the row.
    pub fn copied(&self) -> (r: Model)
        ensures
            r == *self,
    {
        Model {
            id: self.id,
            customer_id: self.customer_id,
            amount: self.amount,
            status: self.status.clone(),
            date: self.date,
        }
    }

    /// The invoice with identifier `id`.
    pub fn load_item(db: &Db, id: u128) -> (r: Result<Model, Error>)
        ensures
            match r {
                Ok(m) => exists|i: int| first_invoice_at(db.invoices@, id, i) && m == db.invoices@[i],
                Err(e) => e == Error::NotFound && !has_invoice(db.invoices@, id),
            },
    {
        match db.find_invoice(id) {
            Some(i) => Ok(db.invoices[i].copied()),
            None => Err(Error::NotFound),
        }
    }

    /// Inserts a new invoice under identifier `id`. It fails, and changes
    /// nothing, when no customer has the given `customer_id` or when an
    /// invoice already has identifier `id`.
    pub fn create(db: &mut Db, id: u128, params: &InvoiceCreateParams) -> (r: Result<Model, Error>)
        requires
            params.date.wf(),
        ensures
            r is Ok <==> (has_customer(old(db).customers@, params.customer_id) && !has_invoice(
                old(db).invoices@,
                id,
            )),
            match r {
                Ok(m) => m == params.row(id) && final(db).invoices@ == old(db).invoices@.push(m),
                Err(e) => e == Error::PersistenceFailure && final(db).invoices@ == old(db).invoices@,
            },
            final(db).customers@ == old(db).customers@,
            old(db).wf() ==> final(db).wf(),
    {
        if !db.customer_exists(params.customer_id) {
            return Err(Error::PersistenceFailure);
        }
        if db.find_invoice(id).is_some() {
            return Err(Error::PersistenceFailure);
        }
        let row = Model {
            id,
            customer_id: params.customer_id,
            amount: params.amount,
            status: params.status.clone(),
            date: params.date,
        };
        db.invoices.push(row.copied());
        proof {
            let n = old(db).invoices@.len();
            assert forall|i: int| 0 <= i < n implies (#[trigger] db.invoices@[i]).id != id by {
                assert(db.invoices@[i] == old(db).invoices@[i]);
            }
        }
        Ok(row)
    }

    /// Changes the supplied fields of the invoice with identifier `id` and
    /// keeps the others. It fails with `NotFound`, changing nothing, when no
    /// invoice has that identifier, and with `PersistenceFailure` when the
    /// update names a customer that does not exist.
    pub fn update(db: &mut Db, id: u128, params: &InvoiceUpdateParams) -> (r: Result<Model, Error>)
        requires
            params.date matches Some(d) ==> d.wf(),
        ensures
            !has_invoice(old(db).invoices@, id) ==> r == Err::<Model, Error>(Error::NotFound),
            has_invoice(old(db).invoices@, id) && params.names_missing_customer(old(db).customers@)
                ==> r == Err::<Model, Error>(Error::PersistenceFailure),
            r is Err ==> final(db).invoices@ == old(db).invoices@,
            match r {
                Ok(m) => exists|i: int|
                    first_invoice_at(old(db).invoices@, id, i) && m == params.applied_to(
                        old(db).invoices@[i],
                    ) && final(db).invoices@ == old(db).invoices@.update(i, m),
                Err(_) => true,
            },
            (has_invoice(old(db).invoices@, id) && !params.names_missing_customer(
                old(db).customers@,
            )) ==> r is Ok,
            final(db).customers@ == old(db).customers@,
            old(db).wf() ==> final(db).wf(),
    {
        let i = match db.find_invoice(id) {
            Some(i) => i,
            None => return Err(Error::NotFound),
        };
        if let Some(c) = params.customer_id {
            if !db.customer_exists(c) {
                return Err(Error::PersistenceFailure);
            }
        }
        let mut item = db.invoices[i].copied();
        params.update(&mut item);
        db.invoices.set(i, item.copied());
        proof {
            let old_rows = old(db).invoices@;
            assert forall|k: int| 0 <= k < db.invoices@.len() implies (#[trigger] db.invoices@[k]).id
                == old_rows[k].id by {}
            if old(db).wf() {
                assert forall|k: int| 0 <= k < db.invoices@.len() implies has_customer(
                    db.customers@,
                    (#[trigger] db.invoices@[k]).customer_id,
                ) by {
                    if k != i {
                        assert(db.invoices@[k] == old_rows[k]);
                    }
                }
            }
        }
        Ok(item)
    }

    /// Deletes the invoice with identifier `id`; fails with `NotFound`,
    /// changing nothing, when there is none.
    pub fn remove(db: &mut Db, id: u128) -> (r: Result<(), Error>)
        ensures
            r is Err <==> !has_invoice(old(db).invoices@, id),
            r is Err ==> r == Err::<(), Error>(Error::NotFound) && final(db).invoices@ == old(
                db,
            ).invoices@,
            r is Ok ==> exists|i: int|
                first_invoice_at(old(db).invoices@, id, i) && final(db).invoices@ == old(
                    db,
                ).invoices@.remove(i),
            final(db).customers@ == old(db).customers@,
            old(db).wf() ==> final(db).wf(),
    {
        let i = match db.find_invoice(id) {
            Some(i) => i,
            None => return Err(Error::NotFound),
        };
        db.invoices.remove(i);
        proof {
            let old_rows = old(db).invoices@;
            assert(db.invoices@ == old_rows.remove(i as int));
            assert forall|k: int| 0 <= k < db.invoices@.len() implies #[trigger] db.invoices@[k]
                == (if k < i { old_rows[k] } else { old_rows[k + 1] }) by {}
        }
        Ok(())
    }
}

} // verus!
