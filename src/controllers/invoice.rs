use vstd::prelude::*;

use crate::controllers::{Handler, Method, Routes};
use crate::models::customers::Customer;
use crate::models::invoices::{InvoiceCreateParams, InvoiceUpdateParams, Model};
use crate::models::{first_invoice_at, has_customer, has_invoice, Db, Error};
use crate::order::{insert_ordered, lemma_insert_ordered_at, sort_ordered};
use crate::text::{chars_of, contains_chars, has_substring, int_chars, int_text, lower_of, lowercase, same_text};
use crate::views::invoice::{GetAllLatestInvoice, GetFilteredInvoice};

verus! {

/// The free-text filter of a request; no query means the empty text.
#[derive(Clone, Debug, PartialEq, Eq)]
pub struct Queries {
    pub query: Option<String>,
}

impl Queries {
    /// The text to filter by.
    pub open spec fn text(&self) -> Seq<char> {
        match self.query {
            Some(q) => q@,
            None => Seq::empty(),
        }
    }

    /// The text to filter by.
    pub fn text_exec(&self) -> (r: String)
        ensures
            r@ == self.text(),
    {
        match &self.query {
            Some(q) => q.clone(),
            None => String::new(),
        }
    }
}

/// The counts of pending and of paid invoices.
#[derive(Clone, Copy, Debug, PartialEq, Eq)]
pub struct StatusCount {
    pub pending: usize,
    pub paid: usize,
}

/// The rows that join invoice `inv` with each customer whose identifier it
/// names, in the customers' table order.
pub open spec fn joined_with(inv: Model, customers: Seq<Customer>) -> Seq<GetFilteredInvoice>
    decreases customers.len(),
{
    if customers.len() == 0 {
        Seq::empty()
    } else {
        let rest = joined_with(inv, customers.drop_last());
        if customers.last().id == inv.customer_id {
            rest.push(GetFilteredInvoice::of(inv, customers.last()))
        } else {
            rest
        }
    }
}

/// The inner join of invoices with customers, invoice by invoice in table
/// order: an invoice whose customer does not exist gives no row.
pub open spec fn joined(invoices: Seq<Model>, customers: Seq<Customer>) -> Seq<GetFilteredInvoice>
    decreases invoices.len(),
{
    if invoices.len() == 0 {
        Seq::empty()
    } else {
        joined(invoices.drop_last(), customers) + joined_with(invoices.last(), customers)
    }
}

/// A joined row matches query `q` when the customer's name or email contains
/// it regardless of case, or the amount's or the date's text contains it.
pub open spec fn row_matches(r: GetFilteredInvoice, q: Seq<char>) -> bool {
    ||| has_substring(lower_of(r.name@), lower_of(q))
    ||| has_substring(lower_of(r.email@), lower_of(q))
    ||| has_substring(int_text(r.amount as int), q)
    ||| has_substring(r.date.text(), q)
}

/// The rows of `rows` that match `q`, in their order.
pub open spec fn matching(rows: Seq<GetFilteredInvoice>, q: Seq<char>) -> Seq<GetFilteredInvoice>
    decreases rows.len(),
{
    if rows.len() == 0 {
        rows
    } else {
        let rest = matching(rows.drop_last(), q);
        if row_matches(rows.last(), q) {
            rest.push(rows.last())
        } else {
            rest
        }
    }
}

/// Row `a` goes before row `b` when its date is later: newest first.
pub open spec fn newest_first() -> spec_fn(GetFilteredInvoice, GetFilteredInvoice) -> bool {
    |a: GetFilteredInvoice, b: GetFilteredInvoice| a.date.after(b.date)
}

/// The number of invoices whose status is `status`.
pub open spec fn status_total(invoices: Seq<Model>, status: Seq<char>) -> nat
    decreases invoices.len(),
{
    if invoices.len() == 0 {
        0
    } else {
        status_total(invoices.drop_last(), status) + if invoices.last().status@ == status {
            1nat
        } else {
            0nat
        }
    }
}

/// The invoice with identifier `id` (the first one), or `None`.
pub open spec fn invoice_by_id(invoices: Seq<Model>, id: u128) -> Option<Model> {
    if has_invoice(invoices, id) {
        Some(invoices[choose|i: int| first_invoice_at(invoices, id, i)])
    } else {
        None
    }
}

/// The inner join of the invoices with their customers.
pub fn joined_rows(db: &Db) -> (r: Vec<GetFilteredInvoice>)
    ensures
        r@ == joined(db.invoices@, db.customers@),
{
    let invs = &db.invoices;
    let custs = &db.customers;
    let mut out: Vec<GetFilteredInvoice> = Vec::new();
    let mut i: usize = 0;
    while i < invs.len()
        invariant
            i <= invs@.len(),
            out@ == joined(invs@.take(i as int), custs@),
        decreases invs@.len() - i,
    {
        let inv = &invs[i];
        let mut j: usize = 0;
        while j < custs.len()
            invariant
                i < invs@.len(),
                *inv == invs@[i as int],
                j <= custs@.len(),
                out@ == joined(invs@.take(i as int), custs@) + joined_with(*inv, custs@.take(j as int)),
            decreases custs@.len() - j,
        {
            let c = &custs[j];
            proof {
                assert(custs@.take(j + 1).drop_last() =~= custs@.take(j as int));
            }
            if c.id == inv.customer_id {
                out.push(GetFilteredInvoice::join(inv, c));
                assert(out@ =~= joined(invs@.take(i as int), custs@) + joined_with(*inv, custs@.take(j + 1)));
            } else {
                assert(out@ =~= joined(invs@.take(i as int), custs@) + joined_with(*inv, custs@.take(j + 1)));
            }
            j = j + 1;
        }
        proof {
            assert(custs@.take(j as int) =~= custs@);
            assert(invs@.take(i + 1).drop_last() =~= invs@.take(i as int));
        }
        i = i + 1;
    }
    assert(invs@.take(i as int) =~= invs@);
    out
}

/// Inserts `row` into `out`, whose rows are newest first, after every row
/// that is not older than it.
fn insert_newest_first(out: &mut Vec<GetFilteredInvoice>, row: GetFilteredInvoice)
    ensures
        final(out)@ == insert_ordered(old(out)@, row, newest_first()),
{
    let mut p: usize = 0;
    while p < out.len() && !row.date.is_after(&out[p].date)
        invariant
            p <= out@.len(),
            forall|k: int| 0 <= k < p ==> !(newest_first())(row, #[trigger] out@[k]),
        decreases out@.len() - p,
    {
        p = p + 1;
    }
    proof {
        lemma_insert_ordered_at(out@, row, newest_first(), p as int);
    }
    out.insert(p, row);
}

/// Tests a joined row against a query, given the lowercase forms of the
/// customer's name and email and of the query.
pub fn matches_folded(
    folded_name: &str,
    folded_email: &str,
    folded_query: &str,
    row: &GetFilteredInvoice,
    query: &str,
) -> (r: bool)
    ensures
        r == (has_substring(folded_name@, folded_query@) || has_substring(
            folded_email@,
            folded_query@,
        ) || has_substring(int_text(row.amount as int), query@) || has_substring(
            row.date.text(),
            query@,
        )),
{
    if crate::controllers::customer::matches_folded(folded_name, folded_email, folded_query) {
        return true;
    }
    let raw = chars_of(query);
    if contains_chars(&int_chars(row.amount as i64), &raw) {
        return true;
    }
    contains_chars(&row.date.text_chars(), &raw)
}

/// Tests whether a joined row matches `query`; `folded_query` is its lowercase form.
fn row_matches_exec(row: &GetFilteredInvoice, query: &str, folded_query: &str) -> (r: bool)
    requires
        folded_query@ == lower_of(query@),
    ensures
        r == row_matches(*row, query@),
{
    let name = lowercase(row.name.as_str());
    let email = lowercase(row.email.as_str());
    matches_folded(name.as_str(), email.as_str(), folded_query, row, query)
}

/// Every invoice that has a customer, with the customer's display fields,
/// newest first; invoices of the same date keep their table order.
pub fn get_all_latest(db: &Db) -> (r: Vec<GetAllLatestInvoice>)
    ensures
        r@ == sort_ordered(joined(db.invoices@, db.customers@), newest_first()).map_values(
            |x: GetFilteredInvoice| x.latest(),
        ),
{
    let rows = joined_rows(db);
    let mut sorted: Vec<GetFilteredInvoice> = Vec::new();
    let mut i: usize = 0;
    while i < rows.len()
        invariant
            i <= rows@.len(),
            sorted@ == sort_ordered(rows@.take(i as int), newest_first()),
        decreases rows@.len() - i,
    {
        insert_newest_first(&mut sorted, rows[i].copied());
        proof {
            assert(rows@.take(i + 1).drop_last() =~= rows@.take(i as int));
        }
        i = i + 1;
    }
    assert(rows@.take(i as int) =~= rows@);
    let mut out: Vec<GetAllLatestInvoice> = Vec::new();
    let mut k: usize = 0;
    while k < sorted.len()
        invariant
            k <= sorted@.len(),
            out@ == sorted@.take(k as int).map_values(|x: GetFilteredInvoice| x.latest()),
        decreases sorted@.len() - k,
    {
        out.push(sorted[k].to_latest());
        k = k + 1;
        assert(out@ =~= sorted@.take(k as int).map_values(|x: GetFilteredInvoice| x.latest()));
    }
    assert(sorted@.take(k as int) =~= sorted@);
    out
}

/// The joined rows that match the query, newest first; rows of the same
/// date keep their table order.
pub fn get_filtered(db: &Db, queries: &Queries) -> (r: Vec<GetFilteredInvoice>)
    ensures
        r@ == sort_ordered(matching(joined(db.invoices@, db.customers@), queries.text()), newest_first()),
{
    let query = queries.text_exec();
    let folded = lowercase(query.as_str());
    let rows = joined_rows(db);
    let ghost q = queries.text();
    let mut out: Vec<GetFilteredInvoice> = Vec::new();
    let mut i: usize = 0;
    while i < rows.len()
        invariant
            i <= rows@.len(),
            query@ == q,
            folded@ == lower_of(q),
            out@ == sort_ordered(matching(rows@.take(i as int), q), newest_first()),
        decreases rows@.len() - i,
    {
        proof {
            assert(rows@.take(i + 1).drop_last() =~= rows@.take(i as int));
        }
        if row_matches_exec(&rows[i], query.as_str(), folded.as_str()) {
            insert_newest_first(&mut out, rows[i].copied());
            proof {
                let m = matching(rows@.take(i as int), q);
                assert(m.push(rows@[i as int]).drop_last() =~= m);
            }
        }
        i = i + 1;
    }
    assert(rows@.take(i as int) =~= rows@);
    out
}

/// The number of invoices.
pub fn get_count(db: &Db) -> (r: usize)
    ensures
        r == db.invoices@.len(),
{
    db.invoices.len()
}

/// The number of invoices with status `pending` and with status `paid`.
pub fn get_status_count(db: &Db) -> (r: StatusCount)
    ensures
        r.pending == status_total(db.invoices@, "pending"@),
        r.paid == status_total(db.invoices@, "paid"@),
{
    let invs = &db.invoices;
    let mut pending: usize = 0;
    let mut paid: usize = 0;
    let mut i: usize = 0;
    while i < invs.len()
        invariant
            i <= invs@.len(),
            pending == status_total(invs@.take(i as int), "pending"@),
            paid == status_total(invs@.take(i as int), "paid"@),
            pending <= i,
            paid <= i,
        decreases invs@.len() - i,
    {
        proof {
            assert(invs@.take(i + 1).drop_last() =~= invs@.take(i as int));
        }
        if same_text(invs[i].status.as_str(), "pending") {
            pending = pending + 1;
        }
        if same_text(invs[i].status.as_str(), "paid") {
            paid = paid + 1;
        }
        i = i + 1;
    }
    assert(invs@.take(i as int) =~= invs@);
    StatusCount { pending, paid }
}

/// The number of joined rows that match the query: the number of rows
/// `get_filtered` lists for it.
pub fn get_pages(db: &Db, queries: &Queries) -> (r: usize)
    ensures
        r == matching(joined(db.invoices@, db.customers@), queries.text()).len(),
{
    let query = queries.text_exec();
    let folded = lowercase(query.as_str());
    let rows = joined_rows(db);
    let ghost q = queries.text();
    let mut count: usize = 0;
    let mut i: usize = 0;
    while i < rows.len()
        invariant
            i <= rows@.len(),
            query@ == q,
            folded@ == lower_of(q),
            count == matching(rows@.take(i as int), q).len(),
            count <= i,
        decreases rows@.len() - i,
    {
        proof {
            assert(rows@.take(i + 1).drop_last() =~= rows@.take(i as int));
        }
        if row_matches_exec(&rows[i], query.as_str(), folded.as_str()) {
            count = count + 1;
        }
        i = i + 1;
    }
    assert(rows@.take(i as int) =~= rows@);
    count
}

/// The invoice with identifier `id`, or `None` when there is none.
pub fn get_by_id(db: &Db, id: u128) -> (r: Option<Model>)
    ensures
        r == invoice_by_id(db.invoices@, id),
{
    match db.find_invoice(id) {
        Some(i) => {
            proof {
                let k = choose|k: int| first_invoice_at(db.invoices@, id, k);
                assert(k == i as int) by {
                    if k < i { assert(db.invoices@[k].id != id); }
                    if k > i { assert(db.invoices@[i as int].id != id); }
                }
            }
            Some(db.invoices[i].copied())
        },
        None => None,
    }
}

/// Creates an invoice under identifier `id`. A failure is returned to the
/// caller, not hidden: `PersistenceFailure` when the customer does not exist
/// or the identifier is taken, and then nothing changes.
pub fn create(db: &mut Db, id: u128, params: &InvoiceCreateParams) -> (r: Result<Model, Error>)
    requires
        params.date.wf(),
    ensures
        r is Ok <==> (has_customer(old(db).customers@, params.customer_id) && !has_invoice(
            old(db).invoices@,
            id,
        )),
        match r {
            Ok(m) => m == params.row(id) && final(db).invoices@ == old(db).invoices@.push(m),
            Err(e) => e == Error::PersistenceFailure && final(db).invoices@ == old(db).invoices@,
        },
        final(db).customers@ == old(db).customers@,
        old(db).wf() ==> final(db).wf(),
{
    Model::create(db, id, params)
}

/// Changes the supplied fields of invoice `id` and keeps the others.
/// `NotFound` when there is no such invoice; `PersistenceFailure` when the
/// update names a customer that does not exist. A failure changes nothing.
pub fn update(db: &mut Db, id: u128, params: &InvoiceUpdateParams) -> (r: Result<Model, Error>)
    requires
        params.date matches Some(d) ==> d.wf(),
    ensures
        !has_invoice(old(db).invoices@, id) ==> r == Err::<Model, Error>(Error::NotFound),
        has_invoice(old(db).invoices@, id) && params.names_missing_customer(old(db).customers@)
            ==> r == Err::<Model, Error>(Error::PersistenceFailure),
        r is Err ==> final(db).invoices@ == old(db).invoices@,
        match r {
            Ok(m) => exists|i: int|
                first_invoice_at(old(db).invoices@, id, i) && m == params.applied_to(
                    old(db).invoices@[i],
                ) && final(db).invoices@ == old(db).invoices@.update(i, m),
            Err(_) => true,
        },
        (has_invoice(old(db).invoices@, id) && !params.names_missing_customer(old(db).customers@))
            ==> r is Ok,
        final(db).customers@ == old(db).customers@,
        old(db).wf() ==> final(db).wf(),
{
    Model::update(db, id, params)
}

/// Deletes invoice `id`; `NotFound`, changing nothing, when there is none.
pub fn remove(db: &mut Db, id: u128) -> (r: Result<(), Error>)
    ensures
        r is Err <==> !has_invoice(old(db).invoices@, id),
        r is Err ==> r == Err::<(), Error>(Error::NotFound) && final(db).invoices@ == old(
            db,
        ).invoices@,
        r is Ok ==> exists|i: int|
            first_invoice_at(old(db).invoices@, id, i) && final(db).invoices@ == old(
                db,
            ).invoices@.remove(i),
        final(db).customers@ == old(db).customers@,
        old(db).wf() ==> final(db).wf(),
{
    Model::remove(db, id)
}

/// The invoice routes, under `invoices`.
pub fn routes() -> (r: Routes)
    ensures
        r.prefix@ == "invoices"@,
        r.entries@.len() == 9,
        r.maps(0, Method::Get, "/latest"@, Handler::InvoicesLatest),
        r.maps(1, Method::Get, "/filtered"@, Handler::InvoicesFiltered),
        r.maps(2, Method::Get, "/count"@, Handler::InvoicesCount),
        r.maps(3, Method::Get, "/statusCount"@, Handler::InvoicesStatusCount),
        r.maps(4, Method::Get, "/pages"@, Handler::InvoicesPages),
        r.maps(5, Method::Get, "/:invoiceId"@, Handler::InvoiceById),
        r.maps(6, Method::Post, ""@, Handler::InvoiceCreate),
        r.maps(7, Method::Patch, "/:invoiceId"@, Handler::InvoiceUpdate),
        r.maps(8, Method::Delete, "/:invoiceId"@, Handler::InvoiceRemove),
{
    Routes::new("invoices")
        .add(Method::Get, "/latest", Handler::InvoicesLatest)
        .add(Method::Get, "/filtered", Handler::InvoicesFiltered)
        .add(Method::Get, "/count", Handler::InvoicesCount)
        .add(Method::Get, "/statusCount", Handler::InvoicesStatusCount)
        .add(Method::Get, "/pages", Handler::InvoicesPages)
        .add(Method::Get, "/:invoiceId", Handler::InvoiceById)
        .add(Method::Post, "", Handler::InvoiceCreate)
        .add(Method::Patch, "/:invoiceId", Handler::InvoiceUpdate)
        .add(Method::Delete, "/:invoiceId", Handler::InvoiceRemove)
}

} // verus!
