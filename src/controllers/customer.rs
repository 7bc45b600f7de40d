use vstd::prelude::*;

use crate::controllers::{Handler, Method, Routes};
use crate::models::customers::Customer;
use crate::models::invoices::Model;
use crate::models::Db;
use crate::order::{insert_ordered, lemma_insert_ordered_at, sort_ordered};
use crate::text::{chars_of, contains_chars, has_substring, lower_of, lowercase, same_text, text_less, text_lt};
use crate::views::customer::GetFilteredCustomer;

verus! {

/// The free-text filter of a request; no query means the empty text.
#[derive(Clone, Debug, PartialEq, Eq)]
pub struct Queries {
    pub query: Option<String>,
}

impl Queries {
    /// The text to filter by.
    pub open spec fn text(&self) -> Seq<char> {
        match self.query {
            Some(q) => q@,
            None => Seq::empty(),
        }
    }

    /// The text to filter by.
    pub fn text_exec(&self) -> (r: String)
        ensures
            r@ == self.text(),
    {
        match &self.query {
            Some(q) => q.clone(),
            None => String::new(),
        }
    }
}

/// The number of invoices of customer `id`.
pub open spec fn invoice_count(invoices: Seq<Model>, id: u128) -> nat
    decreases invoices.len(),
{
    if invoices.len() == 0 {
        0
    } else {
        invoice_count(invoices.drop_last(), id) + if invoices.last().customer_id == id {
            1nat
        } else {
            0nat
        }
    }
}

/// The sum of the amounts of the invoices of customer `id` whose status is `status`.
pub open spec fn amount_total(invoices: Seq<Model>, id: u128, status: Seq<char>) -> int
    decreases invoices.len(),
{
    if invoices.len() == 0 {
        0
    } else {
        let last = invoices.last();
        amount_total(invoices.drop_last(), id, status) + if last.customer_id == id && last.status@
            == status {
            last.amount as int
        } else {
            0
        }
    }
}

/// The number of invoices of customer `id` whose status is `status`.
pub open spec fn status_count(invoices: Seq<Model>, id: u128, status: Seq<char>) -> nat
    decreases invoices.len(),
{
    if invoices.len() == 0 {
        0
    } else {
        let last = invoices.last();
        status_count(invoices.drop_last(), id, status) + if last.customer_id == id && last.status@
            == status {
            1nat
        } else {
            0nat
        }
    }
}

/// Customer `c` with the totals of its invoices; the sum for a status is
/// absent when no invoice of the customer has that status.
pub open spec fn summary(c: Customer, invoices: Seq<Model>) -> GetFilteredCustomer {
    let n = invoice_count(invoices, c.id);
    GetFilteredCustomer {
        id: c.id,
        name: c.name,
        email: c.email,
        image_url: c.image_url,
        total_invoices: n as i64,
        total_pending: if status_count(invoices, c.id, "pending"@) == 0 {
            None
        } else {
            Some(amount_total(invoices, c.id, "pending"@) as i64)
        },
        total_paid: if status_count(invoices, c.id, "paid"@) == 0 {
            None
        } else {
            Some(amount_total(invoices, c.id, "paid"@) as i64)
        },
    }
}

/// Customer `c` matches query `q` when its name or its email contains it,
/// regardless of case.
pub open spec fn customer_matches(c: Customer, q: Seq<char>) -> bool {
    has_substring(lower_of(c.name@), lower_of(q)) || has_substring(lower_of(c.email@), lower_of(q))
}

/// The summaries of the customers that match `q`, in table order.
pub open spec fn summaries(customers: Seq<Customer>, invoices: Seq<Model>, q: Seq<char>) -> Seq<GetFilteredCustomer>
    decreases customers.len(),
{
    if customers.len() == 0 {
        Seq::empty()
    } else {
        let rest = summaries(customers.drop_last(), invoices, q);
        if customer_matches(customers.last(), q) {
            rest.push(summary(customers.last(), invoices))
        } else {
            rest
        }
    }
}

/// Row `a` goes before row `b` when its name comes first.
pub open spec fn by_name() -> spec_fn(GetFilteredCustomer, GetFilteredCustomer) -> bool {
    |a: GetFilteredCustomer, b: GetFilteredCustomer| text_lt(a.name@, b.name@)
}

/// Every customer, in table order.
pub fn get_all(db: &Db) -> (r: Vec<Customer>)
    ensures
        r@ == db.customers@,
{
    let mut out: Vec<Customer> = Vec::new();
    let mut i: usize = 0;
    while i < db.customers.len()
        invariant
            i <= db.customers@.len(),
            out@ == db.customers@.take(i as int),
        decreases db.customers@.len() - i,
    {
        let c = &db.customers[i];
        out.push(Customer { id: c.id, name: c.name.clone(), email: c.email.clone(), image_url: c.image_url.clone() });
        i = i + 1;
        assert(out@ =~= db.customers@.take(i as int));
    }
    assert(db.customers@.take(i as int) =~= db.customers@);
    out
}

/// The number of customers.
pub fn get_count(db: &Db) -> (r: usize)
    ensures
        r == db.customers@.len(),
{
    db.customers.len()
}

/// Tests a customer against a query, given the lowercase forms of its name,
/// of its email and of the query.
pub fn matches_folded(folded_name: &str, folded_email: &str, folded_query: &str) -> (r: bool)
    ensures
        r == (has_substring(folded_name@, folded_query@) || has_substring(folded_email@, folded_query@)),
{
    let q = chars_of(folded_query);
    contains_chars(&chars_of(folded_name), &q) || contains_chars(&chars_of(folded_email), &q)
}

/// Customer `c` with the totals of its invoices.
fn summarize(c: &Customer, invoices: &Vec<Model>) -> (r: GetFilteredCustomer)
    requires
        invoices@.len() <= u32::MAX,
    ensures
        r == summary(*c, invoices@),
{
    let mut n: i64 = 0;
    let mut pending: i64 = 0;
    let mut paid: i64 = 0;
    let mut any_pending = false;
    let mut any_paid = false;
    let mut i: usize = 0;
    while i < invoices.len()
        invariant
            invoices@.len() <= u32::MAX,
            i <= invoices@.len(),
            n == invoice_count(invoices@.take(i as int), c.id),
            pending == amount_total(invoices@.take(i as int), c.id, "pending"@),
            paid == amount_total(invoices@.take(i as int), c.id, "paid"@),
            any_pending == (status_count(invoices@.take(i as int), c.id, "pending"@) > 0),
            any_paid == (status_count(invoices@.take(i as int), c.id, "paid"@) > 0),
            0 <= n <= i,
            -(i as int) * 2147483648 <= pending <= (i as int) * 2147483647,
            -(i as int) * 2147483648 <= paid <= (i as int) * 2147483647,
        decreases invoices@.len() - i,
    {
        proof {
            assert(invoices@.take(i + 1).drop_last() =~= invoices@.take(i as int));
        }
        let inv = &invoices[i];
        if inv.customer_id == c.id {
            n = n + 1;
            if same_text(inv.status.as_str(), "pending") {
                pending = pending + inv.amount as i64;
                any_pending = true;
            }
            if same_text(inv.status.as_str(), "paid") {
                paid = paid + inv.amount as i64;
                any_paid = true;
            }
        }
        i = i + 1;
    }
    assert(invoices@.take(i as int) =~= invoices@);
    GetFilteredCustomer {
        id: c.id,
        name: c.name.clone(),
        email: c.email.clone(),
        image_url: c.image_url.clone(),
        total_invoices: n,
        total_pending: if any_pending { Some(pending) } else { None },
        total_paid: if any_paid { Some(paid) } else { None },
    }
}

/// Inserts `row` into `out`, whose rows are in order of name, after every
/// row whose name does not come after its own.
fn insert_by_name(out: &mut Vec<GetFilteredCustomer>, row: GetFilteredCustomer)
    ensures
        final(out)@ == insert_ordered(old(out)@, row, by_name()),
{
    let mut p: usize = 0;
    while p < out.len() && !text_less(row.name.as_str(), out[p].name.as_str())
        invariant
            p <= out@.len(),
            forall|k: int| 0 <= k < p ==> !(by_name())(row, #[trigger] out@[k]),
        decreases out@.len() - p,
    {
        p = p + 1;
    }
    proof {
        lemma_insert_ordered_at(out@, row, by_name(), p as int);
    }
    out.insert(p, row);
}

/// The customers whose name or email contains the query regardless of case,
/// each with the totals of its invoices, in order of name; customers of the
/// same name keep their table order. There are at most `u32::MAX` invoices,
/// so that every total fits in an `i64`.
pub fn get_filtered(db: &Db, queries: &Queries) -> (r: Vec<GetFilteredCustomer>)
    requires
        db.invoices@.len() <= u32::MAX,
    ensures
        r@ == sort_ordered(summaries(db.customers@, db.invoices@, queries.text()), by_name()),
{
    let query = queries.text_exec();
    let folded = lowercase(query.as_str());
    let custs = &db.customers;
    let ghost q = queries.text();
    let mut out: Vec<GetFilteredCustomer> = Vec::new();
    let mut i: usize = 0;
    while i < custs.len()
        invariant
            db.invoices@.len() <= u32::MAX,
            i <= custs@.len(),
            folded@ == lower_of(q),
            out@ == sort_ordered(summaries(custs@.take(i as int), db.invoices@, q), by_name()),
        decreases custs@.len() - i,
    {
        proof {
            assert(custs@.take(i + 1).drop_last() =~= custs@.take(i as int));
        }
        let c = &custs[i];
        let name = lowercase(c.name.as_str());
        let email = lowercase(c.email.as_str());
        if matches_folded(name.as_str(), email.as_str(), folded.as_str()) {
            let row = summarize(c, &db.invoices);
            insert_by_name(&mut out, row);
            proof {
                let m = summaries(custs@.take(i as int), db.invoices@, q);
                assert(m.push(summary(*c, db.invoices@)).drop_last() =~= m);
            }
        }
        i = i + 1;
    }
    assert(custs@.take(i as int) =~= custs@);
    out
}

/// The customer routes, under `customers`.
pub fn routes() -> (r: Routes)
    ensures
        r.prefix@ == "customers"@,
        r.entries@.len() == 3,
        r.maps(0, Method::Get, ""@, Handler::CustomersAll),
        r.maps(1, Method::Get, "/filtered"@, Handler::CustomersFiltered),
        r.maps(2, Method::Get, "/count"@, Handler::CustomersCount),
{
    Routes::new("customers")
        .add(Method::Get, "", Handler::CustomersAll)
        .add(Method::Get, "/filtered", Handler::CustomersFiltered)
        .add(Method::Get, "/count", Handler::CustomersCount)
}

} // verus!
