//! Invoicing back end: customers, invoices, the aggregate and filtered views
//! over them, and the mutations that keep invoices consistent with customers.
//! The tables are held in memory as plain values; every query is a verified
//! function over them.

pub mod controllers;
pub mod laws;
pub mod migration;
pub mod models;
pub mod order;
pub mod text;
pub mod views;
