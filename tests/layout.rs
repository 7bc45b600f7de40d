use invoicing::controllers::{customer, invoice, Handler, Method};
use invoicing::migration::Migrator;

#[test]
fn customer_routes() {
    let r = customer::routes();
    assert_eq!(r.prefix, "customers");
    let got: Vec<(Method, &str, Handler)> = r.entries.iter().map(|e| (e.method, e.path.as_str(), e.handler)).collect();
    assert_eq!(
        got,
        vec![
            (Method::Get, "", Handler::CustomersAll),
            (Method::Get, "/filtered", Handler::CustomersFiltered),
            (Method::Get, "/count", Handler::CustomersCount),
        ]
    );
}

#[test]
fn invoice_routes() {
    let r = invoice::routes();
    assert_eq!(r.prefix, "invoices");
    assert_eq!(r.entries.len(), 9);
    assert_eq!(r.entries[3].path, "/statusCount");
    assert_eq!(r.entries[3].handler, Handler::InvoicesStatusCount);
    assert_eq!(r.entries[6].method, Method::Post);
    assert_eq!(r.entries[6].path, "");
    assert_eq!(r.entries[8].method, Method::Delete);
    assert_eq!(r.entries[8].path, "/:invoiceId");
    assert_eq!(r.entries[8].handler, Handler::InvoiceRemove);
}

#[test]
fn migrations_in_order() {
    let m = Migrator::migrations();
    assert_eq!(
        m,
        vec![
            "m20220101_000001_users",
            "m20231103_114510_notes",
            "m20241014_074729_revenues",
            "m20241014_090352_customers",
            "m20241014_100526_invoices",
        ]
    );
    assert!(m.windows(2).all(|w| w[0] < w[1]));
}
