use invoicing::controllers::customer;
use invoicing::controllers::invoice;
use invoicing::models::customers::Customer;
use invoicing::models::invoices::{InvoiceCreateParams, InvoiceUpdateParams, Model};
use invoicing::models::{Date, Db, Error};
use invoicing::text::{contains_text, int_chars, nat_chars, pad_zeros, same_text, text_less};

fn date(year: i32, month: u32, day: u32) -> Date {
    Date { year, month, day }
}

fn customer(id: u128, name: &str, email: &str) -> Customer {
    Customer { id, name: name.to_string(), email: email.to_string(), image_url: format!("/img/{}.png", id) }
}

fn params(customer_id: u128, amount: i32, status: &str, d: Date) -> InvoiceCreateParams {
    InvoiceCreateParams { customer_id, amount, status: status.to_string(), date: d }
}

fn no_query() -> customer::Queries {
    customer::Queries { query: None }
}

fn cq(q: &str) -> customer::Queries {
    customer::Queries { query: Some(q.to_string()) }
}

fn iq(q: &str) -> invoice::Queries {
    invoice::Queries { query: Some(q.to_string()) }
}

fn text(v: Vec<char>) -> String {
    v.into_iter().collect()
}

/// Ada with two invoices, Bob with none.
fn sample() -> Db {
    let mut db = Db::new();
    db.add_customer(customer(1, "Ada", "ada@x.com")).unwrap();
    db.add_customer(customer(2, "Bob", "bob@y.org")).unwrap();
    invoice::create(&mut db, 10, &params(1, 500, "paid", date(2024, 1, 1))).unwrap();
    invoice::create(&mut db, 11, &params(1, 300, "pending", date(2024, 2, 1))).unwrap();
    db
}

#[test]
fn customer_without_invoices_has_no_sums() {
    let db = sample();
    let rows = customer::get_filtered(&db, &cq("bob"));
    assert_eq!(rows.len(), 1);
    assert_eq!(rows[0].total_invoices, 0);
    assert_eq!(rows[0].total_pending, None);
    assert_eq!(rows[0].total_paid, None);
}

#[test]
fn customer_summary_of_ada() {
    let db = sample();
    let rows = customer::get_filtered(&db, &cq("ada"));
    assert_eq!(rows.len(), 1);
    assert_eq!(rows[0].name, "Ada");
    assert_eq!(rows[0].total_invoices, 2);
    assert_eq!(rows[0].total_paid, Some(500));
    assert_eq!(rows[0].total_pending, Some(300));
}

#[test]
fn customer_filter_ignores_case() {
    let db = sample();
    let rows = customer::get_filtered(&db, &cq("ADA@X"));
    assert_eq!(rows.len(), 1);
    assert_eq!(rows[0].id, 1);
}

#[test]
fn customer_sum_is_absent_when_no_invoice_has_that_status() {
    let mut db = sample();
    invoice::create(&mut db, 12, &params(2, 70, "pending", date(2024, 3, 1))).unwrap();
    let rows = customer::get_filtered(&db, &cq("bob"));
    assert_eq!(rows[0].total_invoices, 1);
    assert_eq!(rows[0].total_pending, Some(70));
    assert_eq!(rows[0].total_paid, None);
}

#[test]
fn customer_sum_is_zero_when_amounts_cancel() {
    let mut db = sample();
    invoice::create(&mut db, 12, &params(2, 70, "paid", date(2024, 3, 1))).unwrap();
    invoice::create(&mut db, 13, &params(2, -70, "paid", date(2024, 3, 2))).unwrap();
    invoice::create(&mut db, 14, &params(2, 5, "void", date(2024, 3, 3))).unwrap();
    let rows = customer::get_filtered(&db, &cq("bob"));
    assert_eq!(rows[0].total_invoices, 3);
    assert_eq!(rows[0].total_paid, Some(0));
    assert_eq!(rows[0].total_pending, None);
}

#[test]
fn customers_sorted_by_name() {
    let mut db = Db::new();
    db.add_customer(customer(1, "Zoe", "z@x.com")).unwrap();
    db.add_customer(customer(2, "Amy", "a@x.com")).unwrap();
    db.add_customer(customer(3, "Max", "m@x.com")).unwrap();
    let rows = customer::get_filtered(&db, &no_query());
    let names: Vec<&str> = rows.iter().map(|r| r.name.as_str()).collect();
    assert_eq!(names, vec!["Amy", "Max", "Zoe"]);
}

#[test]
fn customer_list_and_count() {
    let db = sample();
    let all = customer::get_all(&db);
    assert_eq!(all.len(), 2);
    assert_eq!(all[0], customer(1, "Ada", "ada@x.com"));
    assert_eq!(customer::get_count(&db), 2);
    assert_eq!(customer::get_count(&Db::new()), 0);
}

#[test]
fn duplicate_customer_is_refused() {
    let mut db = sample();
    assert_eq!(db.add_customer(customer(1, "Eve", "e@x.com")), Err(Error::PersistenceFailure));
    assert_eq!(customer::get_count(&db), 2);
}

#[test]
fn empty_query_lists_same_rows_as_latest() {
    let mut db = sample();
    invoice::create(&mut db, 12, &params(2, 42, "paid", date(2023, 12, 31))).unwrap();
    let latest = invoice::get_all_latest(&db);
    let filtered = invoice::get_filtered(&db, &iq(""));
    let none = invoice::get_filtered(&db, &invoice::Queries { query: None });
    assert_eq!(latest.len(), 3);
    assert_eq!(filtered.len(), 3);
    assert_eq!(none, filtered);
    for (l, f) in latest.iter().zip(filtered.iter()) {
        assert_eq!(l.id, f.id);
        assert_eq!(l.amount, f.amount);
        assert_eq!(l.name, f.name);
        assert_eq!(l.email, f.email);
        assert_eq!(l.image_url, f.image_url);
    }
}

#[test]
fn latest_is_newest_first() {
    let mut db = sample();
    invoice::create(&mut db, 12, &params(2, 42, "paid", date(2023, 12, 31))).unwrap();
    let ids: Vec<u128> = invoice::get_all_latest(&db).iter().map(|r| r.id).collect();
    assert_eq!(ids, vec![11, 10, 12]);
}

#[test]
fn latest_skips_invoice_without_customer() {
    let mut db = sample();
    db.invoices.push(Model { id: 99, customer_id: 7, amount: 1, status: "paid".to_string(), date: date(2025, 1, 1) });
    let rows = invoice::get_all_latest(&db);
    assert_eq!(rows.len(), 2);
    assert!(rows.iter().all(|r| r.id != 99));
    assert_eq!(invoice::get_count(&db), 3);
}

#[test]
fn pages_count_filtered_rows() {
    let mut db = sample();
    invoice::create(&mut db, 12, &params(2, 42, "paid", date(2023, 12, 31))).unwrap();
    for q in ["", "ada", "BOB", "500", "2024-02", "12-31", "nothing", "4"] {
        let rows = invoice::get_filtered(&db, &iq(q));
        assert_eq!(invoice::get_pages(&db, &iq(q)), rows.len());
    }
    assert_eq!(invoice::get_pages(&db, &iq("ada")), 2);
    assert_eq!(invoice::get_pages(&db, &iq("nothing")), 0);
}

#[test]
fn invoice_filter_by_amount_and_date_text() {
    let db = sample();
    let by_amount = invoice::get_filtered(&db, &iq("50"));
    assert_eq!(by_amount.len(), 1);
    assert_eq!(by_amount[0].id, 10);
    let by_date = invoice::get_filtered(&db, &iq("2024-02-01"));
    assert_eq!(by_date.len(), 1);
    assert_eq!(by_date[0].id, 11);
    assert_eq!(by_date[0].status, "pending");
    assert_eq!(by_date[0].name, "Ada");
}

#[test]
fn invoice_filter_by_email_ignores_case() {
    let db = sample();
    let rows = invoice::get_filtered(&db, &iq("ADA@X.COM"));
    assert_eq!(rows.len(), 2);
    assert_eq!(rows[0].id, 11);
    assert_eq!(rows[1].id, 10);
}

#[test]
fn partial_update_changes_status_only() {
    let mut db = Db::new();
    db.add_customer(customer(1, "Ada", "ada@x.com")).unwrap();
    invoice::create(&mut db, 5, &params(1, 100, "pending", date(2024, 5, 6))).unwrap();
    let change = InvoiceUpdateParams { customer_id: None, amount: None, status: Some("paid".to_string()), date: None };
    let updated = invoice::update(&mut db, 5, &change).unwrap();
    assert_eq!(updated.amount, 100);
    assert_eq!(updated.status, "paid");
    assert_eq!(updated.date, date(2024, 5, 6));
    assert_eq!(updated.customer_id, 1);
    assert_eq!(invoice::get_by_id(&db, 5), Some(updated));
}

#[test]
fn update_of_missing_invoice_is_not_found() {
    let mut db = sample();
    let change = InvoiceUpdateParams { customer_id: None, amount: Some(1), status: None, date: None };
    assert_eq!(invoice::update(&mut db, 77, &change), Err(Error::NotFound));
}

#[test]
fn update_to_missing_customer_fails() {
    let mut db = sample();
    let change = InvoiceUpdateParams { customer_id: Some(9), amount: Some(1), status: None, date: None };
    assert_eq!(invoice::update(&mut db, 10, &change), Err(Error::PersistenceFailure));
    assert_eq!(invoice::get_by_id(&db, 10).unwrap().amount, 500);
}

#[test]
fn remove_missing_invoice_is_not_found() {
    let mut db = sample();
    assert_eq!(invoice::remove(&mut db, 404), Err(Error::NotFound));
    assert_eq!(invoice::get_count(&db), 2);
}

#[test]
fn remove_deletes_the_invoice() {
    let mut db = sample();
    assert_eq!(invoice::remove(&mut db, 10), Ok(()));
    assert_eq!(invoice::get_by_id(&db, 10), None);
    assert_eq!(invoice::get_count(&db), 1);
}

#[test]
fn create_for_missing_customer_fails() {
    let mut db = sample();
    let r = invoice::create(&mut db, 20, &params(42, 10, "paid", date(2024, 1, 2)));
    assert_eq!(r, Err(Error::PersistenceFailure));
    assert_eq!(invoice::get_count(&db), 2);
}

#[test]
fn create_with_taken_id_fails() {
    let mut db = sample();
    let r = Model::create(&mut db, 10, &params(1, 10, "paid", date(2024, 1, 2)));
    assert_eq!(r, Err(Error::PersistenceFailure));
}

#[test]
fn create_returns_the_row() {
    let mut db = sample();
    let m = invoice::create(&mut db, 30, &params(2, -15, "pending", date(2024, 7, 8))).unwrap();
    assert_eq!(m, Model { id: 30, customer_id: 2, amount: -15, status: "pending".to_string(), date: date(2024, 7, 8) });
    assert_eq!(Model::load_item(&db, 30), Ok(m));
    assert_eq!(Model::load_item(&db, 31), Err(Error::NotFound));
}

#[test]
fn status_count_two_paid_three_pending() {
    let mut db = Db::new();
    db.add_customer(customer(1, "Ada", "ada@x.com")).unwrap();
    let statuses = ["paid", "pending", "paid", "pending", "pending"];
    for (k, s) in statuses.iter().enumerate() {
        invoice::create(&mut db, k as u128 + 1, &params(1, 10, s, date(2024, 1, 1))).unwrap();
    }
    let c = invoice::get_status_count(&db);
    assert_eq!(c.pending, 3);
    assert_eq!(c.paid, 2);
}

#[test]
fn status_count_ignores_other_statuses() {
    let mut db = sample();
    invoice::create(&mut db, 12, &params(2, 9, "void", date(2024, 1, 1))).unwrap();
    invoice::create(&mut db, 13, &params(2, 9, "Paid", date(2024, 1, 1))).unwrap();
    let c = invoice::get_status_count(&db);
    assert_eq!(c.pending, 1);
    assert_eq!(c.paid, 1);
    assert_eq!(invoice::get_status_count(&Db::new()), invoice::StatusCount { pending: 0, paid: 0 });
}

#[test]
fn number_and_date_text() {
    assert_eq!(text(nat_chars(0)), "0");
    assert_eq!(text(int_chars(-2147483648)), "-2147483648");
    assert_eq!(text(int_chars(i64::MIN)), "-9223372036854775808");
    assert_eq!(text(int_chars(1200)), "1200");
    assert_eq!(text(pad_zeros(vec!['7'], 4)), "0007");
    assert_eq!(text(date(2024, 3, 9).text_chars()), "2024-03-09");
    assert_eq!(text(date(12, 11, 30).text_chars()), "0012-11-30");
    assert_eq!(text(date(-44, 3, 15).text_chars()), "-0044-03-15");
    assert_eq!(text(date(12345, 6, 7).text_chars()), "+12345-06-07");
    assert!(date(2024, 1, 2).is_after(&date(2023, 12, 31)));
    assert!(!date(2024, 1, 2).is_after(&date(2024, 1, 2)));
}

#[test]
fn calendar_dates() {
    assert!(date(2024, 2, 29).is_valid());
    assert!(!date(2023, 2, 29).is_valid());
    assert!(date(2000, 2, 29).is_valid());
    assert!(!date(1900, 2, 29).is_valid());
    assert!(!date(2024, 4, 31).is_valid());
    assert!(date(2024, 12, 31).is_valid());
    assert!(!date(2024, 13, 1).is_valid());
    assert!(!date(2024, 0, 1).is_valid());
    assert!(!date(2024, 1, 0).is_valid());
    assert!(date(-4, 2, 29).is_valid());
}

#[test]
fn text_helpers() {
    assert!(contains_text("hello", ""));
    assert!(contains_text("hello", "llo"));
    assert!(!contains_text("hello", "hello!"));
    assert!(!contains_text("", "a"));
    assert!(same_text("paid", "paid"));
    assert!(!same_text("paid", "pai"));
    assert!(text_less("Ada", "Bob"));
    assert!(text_less("Ad", "Ada"));
    assert!(!text_less("Ada", "Ada"));
    assert!(!text_less("b", "a"));
    assert!(customer::matches_folded("ada", "x@y", "da"));
    assert!(!customer::matches_folded("ada", "x@y", "DA"));
}
