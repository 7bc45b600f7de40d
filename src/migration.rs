use vstd::prelude::*;

verus! {

/// The schema migrations, applied in the order given.
pub struct Migrator;

impl Migrator {
    /// The identifiers of the migrations, oldest first: each starts with the
    /// time it was written, and they create the users, notes, revenues,
    /// customers and invoices tables in turn.
    pub fn migrations() -> (r: Vec<String>)
        ensures
            r@.len() == 5,
            r@[0]@ == "m20220101_000001_users"@,
            r@[1]@ == "m20231103_114510_notes"@,
            r@[2]@ == "m20241014_074729_revenues"@,
            r@[3]@ == "m20241014_090352_customers"@,
            r@[4]@ == "m20241014_100526_invoices"@,
    {
        let mut r: Vec<String> = Vec::new();
        r.push("m20220101_000001_users".to_string());
        r.push("m20231103_114510_notes".to_string());
        r.push("m20241014_074729_revenues".to_string());
        r.push("m20241014_090352_customers".to_string());
        r.push("m20241014_100526_invoices".to_string());
        r
    }
}

} // verus!
