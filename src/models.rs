pub mod customers;
pub mod invoices;

use vstd::prelude::*;

use crate::models::customers::Customer;
use crate::text::{int_chars, nat_chars, nat_text, pad_zeros, zero_pad};
use crate::models::invoices::Model;

verus! {

/// A calendar date, without time of day.
#[derive(Clone, Copy, Debug, PartialEq, Eq)]
pub struct Date {
    pub year: i32,
    pub month: u32,
    pub day: u32,
}

/// `year` is a leap year of the proleptic Gregorian calendar.
pub open spec fn is_leap_year(year: int) -> bool {
    (year % 4 == 0 && year % 100 != 0) || year % 400 == 0
}

/// The number of days of month `month` (1 to 12) of `year`.
pub open spec fn days_in_month(year: int, month: int) -> int {
    if month == 2 {
        if is_leap_year(year) { 29 } else { 28 }
    } else if month == 4 || month == 6 || month == 9 || month == 11 {
        30
    } else {
        31
    }
}

impl Date {
    /// The date exists in the calendar: a month from 1 to 12 and a day
    /// within that month.
    pub open spec fn wf(&self) -> bool {
        &&& 1 <= self.month <= 12
        &&& 1 <= self.day <= days_in_month(self.year as int, self.month as int)
    }

    /// Tests whether the date exists in the calendar.
    pub fn is_valid(&self) -> (r: bool)
        ensures
            r == self.wf(),
    {
        if self.month < 1 || self.month > 12 || self.day < 1 {
            return false;
        }
        let y = self.year as i64;
        let leap = (y % 4 == 0 && y % 100 != 0) || y % 400 == 0;
        let days: u32 = if self.month == 2 {
            if leap { 29 } else { 28 }
        } else if self.month == 4 || self.month == 6 || self.month == 9 || self.month == 11 {
            30
        } else {
            31
        };
        self.day <= days
    }

    /// `self` is a later day than `other`.
    pub open spec fn after(&self, other: Date) -> bool {
        ||| self.year > other.year
        ||| self.year == other.year && self.month > other.month
        ||| self.year == other.year && self.month == other.month && self.day > other.day
    }

    /// The date as text, `YYYY-MM-DD`: a year outside 0 to 9999 carries its
    /// sign and at least four digits.
    pub open spec fn text(&self) -> Seq<char> {
        let y = self.year as int;
        let year = if 0 <= y <= 9999 {
            zero_pad(nat_text(y as nat), 4)
        } else if y < 0 {
            seq!['-'] + zero_pad(nat_text((-y) as nat), 4)
        } else {
            seq!['+'] + zero_pad(nat_text(y as nat), 4)
        };
        year + seq!['-'] + zero_pad(nat_text(self.month as nat), 2) + seq!['-'] + zero_pad(
            nat_text(self.day as nat),
            2,
        )
    }

    /// Tests whether `self` is a later day than `other`.
    pub fn is_after(&self, other: &Date) -> (r: bool)
        ensures
            r == self.after(*other),
    {
        self.year > other.year || (self.year == other.year && self.month > other.month) || (
        self.year == other.year && self.month == other.month && self.day > other.day)
    }

    /// The characters of the date as text.
    pub fn text_chars(&self) -> (r: Vec<char>)
        ensures
            r@ == self.text(),
    {
        let y = self.year as i64;
        let mut r: Vec<char> = if 0 <= y && y <= 9999 {
            pad_zeros(nat_chars(y as u64), 4)
        } else if y < 0 {
            let mut s: Vec<char> = vec!['-'];
            let mut digits = pad_zeros(nat_chars((-y) as u64), 4);
            s.append(&mut digits);
            s
        } else {
            let mut s: Vec<char> = vec!['+'];
            let mut digits = pad_zeros(nat_chars(y as u64), 4);
            s.append(&mut digits);
            s
        };
        let ghost year = r@;
        r.push('-');
        let mut m = pad_zeros(nat_chars(self.month as u64), 2);
        let ghost mt = m@;
        r.append(&mut m);
        r.push('-');
        let mut d = pad_zeros(nat_chars(self.day as u64), 2);
        let ghost dt = d@;
        r.append(&mut d);
        assert(r@ =~= year + seq!['-'] + mt + seq!['-'] + dt);
        r
    }
}

/// What a request against the tables can fail with.
#[derive(Clone, Copy, Debug, PartialEq, Eq)]
pub enum Error {
    /// No invoice has the requested identifier.
    NotFound,
    /// The write would break a constraint of the tables: an invoice that
    /// names no existing customer, or an identifier that is already taken.
    PersistenceFailure,
}

/// The two tables: customers and their invoices.
#[derive(Debug)]
pub struct Db {
    pub customers: Vec<Customer>,
    pub invoices: Vec<Model>,
}

/// Some customer has identifier `id`.
pub open spec fn has_customer(customers: Seq<Customer>, id: u128) -> bool {
    exists|i: int| 0 <= i < customers.len() && (#[trigger] customers[i]).id == id
}

/// Some invoice has identifier `id`.
pub open spec fn has_invoice(invoices: Seq<Model>, id: u128) -> bool {
    exists|i: int| 0 <= i < invoices.len() && (#[trigger] invoices[i]).id == id
}

/// `i` is the first position of the invoice with identifier `id`.
pub open spec fn first_invoice_at(invoices: Seq<Model>, id: u128, i: int) -> bool {
    &&& 0 <= i < invoices.len()
    &&& invoices[i].id == id
    &&& forall|j: int| 0 <= j < i ==> (#[trigger] invoices[j]).id != id
}

impl Db {
    /// Identifiers are unique in each table, every invoice names an existing
    /// customer, and every invoice's date exists in the calendar.
    pub open spec fn wf(&self) -> bool {
        &&& forall|i: int, j: int|
            0 <= i < j < self.customers@.len() ==> (#[trigger] self.customers@[i]).id
                != (#[trigger] self.customers@[j]).id
        &&& forall|i: int, j: int|
            0 <= i < j < self.invoices@.len() ==> (#[trigger] self.invoices@[i]).id
                != (#[trigger] self.invoices@[j]).id
        &&& forall|i: int|
            0 <= i < self.invoices@.len() ==> has_customer(
                self.customers@,
                (#[trigger] self.invoices@[i]).customer_id,
            )
        &&& forall|i: int| 0 <= i < self.invoices@.len() ==> (#[trigger] self.invoices@[i]).date.wf()
    }

    /// Empty tables.
    pub fn new() -> (r: Db)
        ensures
            r.customers@.len() == 0,
            r.invoices@.len() == 0,
            r.wf(),
    {
        Db { customers: Vec::new(), invoices: Vec::new() }
    }

    /// Tests whether a customer has identifier `id`.
    pub fn customer_exists(&self, id: u128) -> (r: bool)
        ensures
            r == has_customer(self.customers@, id),
    {
        let mut i: usize = 0;
        while i < self.customers.len()
            invariant
                i <= self.customers@.len(),
                forall|j: int| 0 <= j < i ==> (#[trigger] self.customers@[j]).id != id,
            decreases self.customers@.len() - i,
        {
            if self.customers[i].id == id {
                return true;
            }
            i = i + 1;
        }
        false
    }

    /// The position of the first invoice with identifier `id`, if any.
    pub fn find_invoice(&self, id: u128) -> (r: Option<usize>)
        ensures
            match r {
                Some(i) => first_invoice_at(self.invoices@, id, i as int),
                None => !has_invoice(self.invoices@, id),
            },
    {
        let mut i: usize = 0;
        while i < self.invoices.len()
            invariant
                i <= self.invoices@.len(),
                forall|j: int| 0 <= j < i ==> (#[trigger] self.invoices@[j]).id != id,
            decreases self.invoices@.len() - i,
        {
            if self.invoices[i].id == id {
                return Some(i);
            }
            i = i + 1;
        }
        None
    }

    /// Adds a customer; fails when its identifier is already taken.
    pub fn add_customer(&mut self, c: Customer) -> (r: Result<(), Error>)
        ensures
            r is Ok <==> !has_customer(old(self).customers@, c.id),
            r is Ok ==> final(self).customers@ == old(self).customers@.push(c),
            r is Err ==> final(self).customers@ == old(self).customers@ && r == Err::<(), Error>(
                Error::PersistenceFailure,
            ),
            final(self).invoices@ == old(self).invoices@,
            old(self).wf() ==> final(self).wf(),
    {
        if self.customer_exists(c.id) {
            return Err(Error::PersistenceFailure);
        }
        let ghost before = self.customers@;
        self.customers.push(c);
        proof {
            assert forall|i: int| 0 <= i < self.invoices@.len() && has_customer(before, #[trigger] self.invoices@[i].customer_id)
                implies has_customer(self.customers@, self.invoices@[i].customer_id) by {
                let k = choose|k: int| 0 <= k < before.len() && (#[trigger] before[k]).id == self.invoices@[i].customer_id;
                assert(self.customers@[k] == before[k]);
            }
        }
        Ok(())
    }
}

} // verus!
