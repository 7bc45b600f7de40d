pub mod customer;
pub mod invoice;
