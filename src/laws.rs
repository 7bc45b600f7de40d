use vstd::prelude::*;

use crate::controllers::customer::{by_name, customer_matches, invoice_count, status_count, summaries, summary};
use crate::controllers::invoice::{joined, joined_with, matching, newest_first, row_matches};
use crate::models::customers::Customer;
use crate::models::invoices::{InvoiceUpdateParams, Model};
use crate::models::Db;
use crate::order::{
    is_ordered, is_strict_order, lemma_sort_is_ordered, lemma_sort_ordered_len, lemma_sort_ordered_multiset, sort_ordered,
};
use crate::text::{has_substring, lemma_text_lt_asymmetric, lemma_text_lt_transitive, occurs_at};
use crate::views::customer::GetFilteredCustomer;
use crate::views::invoice::GetFilteredInvoice;

verus! {

/// The empty text occurs in every text.
pub proof fn lemma_empty_substring(hay: Seq<char>)
    ensures
        has_substring(hay, Seq::empty()),
{
    assert(hay.subrange(0, 0) =~= Seq::<char>::empty());
    assert(occurs_at(hay, Seq::empty(), 0));
}

/// A customer that no invoice names is listed with no invoices and with no
/// sums at all: absent, not zero.
pub proof fn lemma_no_invoices_no_totals(c: Customer, invoices: Seq<Model>)
    requires
        forall|i: int| 0 <= i < invoices.len() ==> (#[trigger] invoices[i]).customer_id != c.id,
    ensures
        summary(c, invoices).total_invoices == 0,
        summary(c, invoices).total_pending is None,
        summary(c, invoices).total_paid is None,
{
    lemma_count_zero(invoices, c.id, "pending"@);
    lemma_count_zero(invoices, c.id, "paid"@);
}

proof fn lemma_count_zero(invoices: Seq<Model>, id: u128, status: Seq<char>)
    requires
        forall|i: int| 0 <= i < invoices.len() ==> (#[trigger] invoices[i]).customer_id != id,
    ensures
        invoice_count(invoices, id) == 0,
        status_count(invoices, id, status) == 0,
    decreases invoices.len(),
{
    if invoices.len() > 0 {
        let rest = invoices.drop_last();
        assert forall|i: int| 0 <= i < rest.len() implies (#[trigger] rest[i]).customer_id != id by {
            assert(rest[i] == invoices[i]);
        }
        lemma_count_zero(rest, id, status);
    }
}

/// Every row matches the empty query, so filtering by it keeps every row.
pub proof fn lemma_empty_query_keeps_all(rows: Seq<GetFilteredInvoice>)
    ensures
        matching(rows, Seq::empty()) == rows,
    decreases rows.len(),
{
    if rows.len() > 0 {
        lemma_empty_query_keeps_all(rows.drop_last());
        lemma_empty_substring(crate::text::int_text(rows.last().amount as int));
        assert(row_matches(rows.last(), Seq::empty()));
        assert(rows.drop_last().push(rows.last()) =~= rows);
    }
}

/// The page count for a query is the number of rows the filtered invoice
/// listing shows for it.
pub proof fn lemma_pages_count_rows(invoices: Seq<Model>, customers: Seq<Customer>, q: Seq<char>)
    ensures
        sort_ordered(matching(joined(invoices, customers), q), newest_first()).len() == matching(
            joined(invoices, customers),
            q,
        ).len(),
{
    lemma_sort_ordered_len(matching(joined(invoices, customers), q), newest_first());
}

/// A later date goes first: a strict order.
pub proof fn lemma_newest_first_is_strict()
    ensures
        is_strict_order(newest_first()),
{
}

/// A name that comes first goes first: a strict order.
pub proof fn lemma_by_name_is_strict()
    ensures
        is_strict_order(by_name()),
{
    assert forall|a: GetFilteredCustomer, b: GetFilteredCustomer| #[trigger] (by_name())(a, b) implies !(
    by_name())(b, a) by {
        lemma_text_lt_asymmetric(a.name@, b.name@);
    }
    assert forall|a: GetFilteredCustomer, b: GetFilteredCustomer, c: GetFilteredCustomer| #[trigger] (
    by_name())(a, b) && #[trigger] (by_name())(b, c) implies (by_name())(a, c) by {
        lemma_text_lt_transitive(a.name@, b.name@, c.name@);
    }
}

/// The latest-invoices and filtered invoice listings are in order of date,
/// newest first.
pub proof fn lemma_invoice_listing_newest_first(rows: Seq<GetFilteredInvoice>)
    ensures
        is_ordered(sort_ordered(rows, newest_first()), newest_first()),
{
    lemma_newest_first_is_strict();
    lemma_sort_is_ordered(rows, newest_first());
}

/// The filtered customer listing is in order of name.
pub proof fn lemma_customer_listing_by_name(
    customers: Seq<Customer>,
    invoices: Seq<Model>,
    q: Seq<char>,
)
    ensures
        is_ordered(sort_ordered(summaries(customers, invoices, q), by_name()), by_name()),
{
    lemma_by_name_is_strict();
    lemma_sort_is_ordered(summaries(customers, invoices, q), by_name());
}

/// An update that supplies only a status changes the status and keeps the
/// identifier, customer, amount and date.
pub proof fn lemma_status_only_update(item: Model, status: String)
    ensures
        ({
            let p = InvoiceUpdateParams { customer_id: None, amount: None, status: Some(status), date: None };
            let r = p.applied_to(item);
            r.status == status && r.id == item.id && r.customer_id == item.customer_id && r.amount
                == item.amount && r.date == item.date
        }),
{
}

/// Each row of `summaries` is the summary of one of the customers.
proof fn lemma_summaries_members(customers: Seq<Customer>, invoices: Seq<Model>, q: Seq<char>)
    ensures
        forall|r: GetFilteredCustomer| #[trigger] summaries(customers, invoices, q).contains(r) ==> exists|j: int|
            0 <= j < customers.len() && r == summary(customers[j], invoices),
    decreases customers.len(),
{
    if customers.len() > 0 {
        let before = customers.drop_last();
        lemma_summaries_members(before, invoices, q);
        let rest = summaries(before, invoices, q);
        let all = summaries(customers, invoices, q);
        assert forall|r: GetFilteredCustomer| #[trigger] all.contains(r) implies exists|j: int|
            0 <= j < customers.len() && r == summary(customers[j], invoices) by {
            let i = choose|i: int| 0 <= i < all.len() && all[i] == r;
            if i < rest.len() {
                assert(rest[i] == r);
                assert(rest.contains(r));
                let j = choose|j: int| 0 <= j < before.len() && r == summary(before[j], invoices);
                assert(before[j] == customers[j]);
            } else {
                assert(r == summary(customers[customers.len() - 1], invoices));
            }
        }
    }
}

/// With unique identifiers, the summary of matching customer `k` is listed once.
proof fn lemma_summaries_once(customers: Seq<Customer>, invoices: Seq<Model>, q: Seq<char>, k: int)
    requires
        0 <= k < customers.len(),
        forall|i: int, j: int| 0 <= i < j < customers.len() ==> (#[trigger] customers[i]).id != (#[trigger] customers[j]).id,
        customer_matches(customers[k], q),
    ensures
        summaries(customers, invoices, q).to_multiset().count(summary(customers[k], invoices)) == 1,
    decreases customers.len(),
{
    broadcast use vstd::seq_lib::group_to_multiset_ensures, vstd::multiset::group_multiset_axioms;

    let before = customers.drop_last();
    let rest = summaries(before, invoices, q);
    let row = summary(customers[k], invoices);
    let last = customers.last();
    if k == customers.len() - 1 {
        lemma_summaries_members(before, invoices, q);
        if rest.contains(row) {
            let j = choose|j: int| 0 <= j < before.len() && row == summary(before[j], invoices);
            assert(before[j] == customers[j]);
        }
        assert(rest.to_multiset().count(row) == 0);
    } else {
        lemma_summaries_once(before, invoices, q, k);
        assert(before[k] == customers[k]);
        assert(last.id != customers[k].id);
    }
}

/// A customer that no invoice names, and that matches the query, is listed
/// exactly once by the filtered customer listing, with no invoices and no
/// sums: absent, not zero.
pub proof fn lemma_customer_without_invoices_listed_once(db: Db, k: int, q: Seq<char>)
    requires
        db.wf(),
        0 <= k < db.customers@.len(),
        forall|i: int| 0 <= i < db.invoices@.len() ==> (#[trigger] db.invoices@[i]).customer_id != db.customers@[k].id,
        customer_matches(db.customers@[k], q),
    ensures
        ({
            let out = sort_ordered(summaries(db.customers@, db.invoices@, q), by_name());
            let row = summary(db.customers@[k], db.invoices@);
            &&& out.to_multiset().count(row) == 1
            &&& forall|i: int| 0 <= i < out.len() && (#[trigger] out[i]).id == row.id ==> out[i] == row
            &&& row.total_invoices == 0
            &&& row.total_pending is None
            &&& row.total_paid is None
        }),
{
    broadcast use vstd::seq_lib::group_to_multiset_ensures;

    let cs = db.customers@;
    let sums = summaries(cs, db.invoices@, q);
    let out = sort_ordered(sums, by_name());
    let row = summary(cs[k], db.invoices@);
    lemma_no_invoices_no_totals(cs[k], db.invoices@);
    lemma_summaries_once(cs, db.invoices@, q, k);
    lemma_sort_ordered_multiset(sums, by_name());
    lemma_summaries_members(cs, db.invoices@, q);
    assert forall|i: int| 0 <= i < out.len() && (#[trigger] out[i]).id == row.id implies out[i] == row by {
        assert(out.contains(out[i]));
        assert(out.to_multiset().count(out[i]) > 0);
        assert(sums.contains(out[i]));
        let j = choose|j: int| 0 <= j < cs.len() && out[i] == summary(cs[j], db.invoices@);
        if j != k {
            if j < k {
                assert(cs[j].id != cs[k].id);
            } else {
                assert(cs[k].id != cs[j].id);
            }
        }
    }
}

/// The rows joining `inv` are those with each customer it names.
proof fn lemma_joined_with_members(inv: Model, customers: Seq<Customer>, r: GetFilteredInvoice)
    ensures
        joined_with(inv, customers).contains(r) <==> exists|j: int|
            0 <= j < customers.len() && customers[j].id == inv.customer_id && r
                == GetFilteredInvoice::of(inv, #[trigger] customers[j]),
    decreases customers.len(),
{
    if customers.len() > 0 {
        let before = customers.drop_last();
        let rest = joined_with(inv, before);
        let all = joined_with(inv, customers);
        let n = customers.len() - 1;
        lemma_joined_with_members(inv, before, r);
        if all.contains(r) {
            let i = choose|i: int| 0 <= i < all.len() && all[i] == r;
            if i < rest.len() {
                assert(rest[i] == r);
                assert(rest.contains(r));
                let j = choose|j: int| 0 <= j < before.len() && before[j].id == inv.customer_id && r
                    == GetFilteredInvoice::of(inv, #[trigger] before[j]);
                assert(before[j] == customers[j]);
            } else {
                assert(customers[n].id == inv.customer_id && r == GetFilteredInvoice::of(inv, customers[n]));
            }
        }
        if exists|j: int| 0 <= j < customers.len() && customers[j].id == inv.customer_id && r
            == GetFilteredInvoice::of(inv, #[trigger] customers[j]) {
            let j = choose|j: int| 0 <= j < customers.len() && customers[j].id == inv.customer_id && r
                == GetFilteredInvoice::of(inv, #[trigger] customers[j]);
            if j < n {
                assert(before[j] == customers[j]);
                let i = choose|i: int| 0 <= i < rest.len() && rest[i] == r;
                assert(all[i] == r);
            } else {
                assert(all[all.len() - 1] == r);
            }
        }
    }
}

/// The rows of the join are those of each invoice with each customer it names.
proof fn lemma_joined_members(invoices: Seq<Model>, customers: Seq<Customer>, r: GetFilteredInvoice)
    ensures
        joined(invoices, customers).contains(r) <==> exists|i: int, j: int|
            0 <= i < invoices.len() && 0 <= j < customers.len() && customers[j].id
                == invoices[i].customer_id && r == GetFilteredInvoice::of(
                #[trigger] invoices[i],
                #[trigger] customers[j],
            ),
    decreases invoices.len(),
{
    if invoices.len() > 0 {
        let before = invoices.drop_last();
        let n = invoices.len() - 1;
        let head = joined(before, customers);
        let tail = joined_with(invoices[n], customers);
        let all = joined(invoices, customers);
        assert(all == head + tail);
        lemma_joined_members(before, customers, r);
        lemma_joined_with_members(invoices[n], customers, r);
        if all.contains(r) {
            let k = choose|k: int| 0 <= k < all.len() && all[k] == r;
            if k < head.len() {
                assert(head[k] == r);
                assert(head.contains(r));
                let (i, j) = choose|i: int, j: int|
                    0 <= i < before.len() && 0 <= j < customers.len() && customers[j].id
                        == before[i].customer_id && r == GetFilteredInvoice::of(
                        #[trigger] before[i],
                        #[trigger] customers[j],
                    );
                assert(before[i] == invoices[i]);
            } else {
                assert(tail[k - head.len()] == r);
                assert(tail.contains(r));
                let j = choose|j: int| 0 <= j < customers.len() && customers[j].id == invoices[n].customer_id && r
                    == GetFilteredInvoice::of(invoices[n], #[trigger] customers[j]);
                assert(customers[j].id == invoices[n].customer_id && r == GetFilteredInvoice::of(invoices[n], customers[j]));
            }
        }
        if exists|i: int, j: int|
            0 <= i < invoices.len() && 0 <= j < customers.len() && customers[j].id
                == invoices[i].customer_id && r == GetFilteredInvoice::of(
                #[trigger] invoices[i],
                #[trigger] customers[j],
            ) {
            let (i, j) = choose|i: int, j: int|
                0 <= i < invoices.len() && 0 <= j < customers.len() && customers[j].id
                    == invoices[i].customer_id && r == GetFilteredInvoice::of(
                    #[trigger] invoices[i],
                    #[trigger] customers[j],
                );
            if i < n {
                assert(before[i] == invoices[i]);
                assert(customers[j].id == before[i].customer_id && r == GetFilteredInvoice::of(before[i], customers[j]));
                let k = choose|k: int| 0 <= k < head.len() && head[k] == r;
                assert(all[k] == r);
            } else {
                assert(customers[j].id == invoices[n].customer_id && r == GetFilteredInvoice::of(invoices[n], customers[j]));
                let k = choose|k: int| 0 <= k < tail.len() && tail[k] == r;
                assert(all[head.len() + k] == r);
            }
        }
    }
}

/// For the empty query the filtered invoice listing is newest first, holds
/// the rows of the join each as often as the join does (one row for each
/// invoice and each customer it names, so exactly the invoices that have a
/// customer), and shows what the latest-invoices listing shows, row by row.
pub proof fn lemma_empty_filter_lists_joined(invoices: Seq<Model>, customers: Seq<Customer>)
    ensures
        ({
            let rows = sort_ordered(matching(joined(invoices, customers), Seq::empty()), newest_first());
            &&& rows.map_values(|x: GetFilteredInvoice| x.latest()) == sort_ordered(
                joined(invoices, customers),
                newest_first(),
            ).map_values(|x: GetFilteredInvoice| x.latest())
            &&& rows.to_multiset() == joined(invoices, customers).to_multiset()
            &&& is_ordered(rows, newest_first())
            &&& forall|r: GetFilteredInvoice| #[trigger] rows.contains(r) <==> exists|i: int, j: int|
                0 <= i < invoices.len() && 0 <= j < customers.len() && customers[j].id
                    == invoices[i].customer_id && r == GetFilteredInvoice::of(
                    #[trigger] invoices[i],
                    #[trigger] customers[j],
                )
        }),
{
    broadcast use vstd::seq_lib::group_to_multiset_ensures;

    let all = joined(invoices, customers);
    lemma_empty_query_keeps_all(all);
    lemma_sort_ordered_multiset(all, newest_first());
    lemma_invoice_listing_newest_first(all);
    let rows = sort_ordered(all, newest_first());
    assert forall|r: GetFilteredInvoice| #[trigger] rows.contains(r) <==> exists|i: int, j: int|
        0 <= i < invoices.len() && 0 <= j < customers.len() && customers[j].id
            == invoices[i].customer_id && r == GetFilteredInvoice::of(
            #[trigger] invoices[i],
            #[trigger] customers[j],
        ) by {
        lemma_joined_members(invoices, customers, r);
        assert(rows.contains(r) <==> rows.to_multiset().count(r) > 0);
        assert(all.contains(r) <==> all.to_multiset().count(r) > 0);
    }
}

} // verus!
