pub mod customer;
pub mod invoice;

use vstd::prelude::*;

verus! {

/// An HTTP method that a route answers to.
#[derive(Clone, Copy, Debug, PartialEq, Eq, Structural)]
pub enum Method {
    Get,
    Post,
    Patch,
    Delete,
}

/// The request handlers of the two resources.
#[derive(Clone, Copy, Debug, PartialEq, Eq, Structural)]
pub enum Handler {
    CustomersAll,
    CustomersFiltered,
    CustomersCount,
    InvoicesLatest,
    InvoicesFiltered,
    InvoicesCount,
    InvoicesStatusCount,
    InvoicesPages,
    InvoiceById,
    InvoiceCreate,
    InvoiceUpdate,
    InvoiceRemove,
}

/// A path under a resource's prefix, with the method and handler it maps to;
/// a segment that starts with `:` stands for a parameter.
#[derive(Clone, Debug, PartialEq, Eq)]
pub struct Route {
    pub method: Method,
    pub path: String,
    pub handler: Handler,
}

/// The routes of one resource, all under `prefix`.
#[derive(Clone, Debug, PartialEq, Eq)]
pub struct Routes {
    pub prefix: String,
    pub entries: Vec<Route>,
}

impl Routes {
    /// Entry `k` maps `method` and `path` to `handler`.
    pub open spec fn maps(&self, k: int, method: Method, path: Seq<char>, handler: Handler) -> bool {
        &&& 0 <= k < self.entries@.len()
        &&& self.entries@[k].method == method
        &&& self.entries@[k].path@ == path
        &&& self.entries@[k].handler == handler
    }

    /// No routes, under `prefix`.
    pub fn new(prefix: &str) -> (r: Routes)
        ensures
            r.prefix@ == prefix@,
            r.entries@.len() == 0,
    {
        Routes { prefix: prefix.to_string(), entries: Vec::new() }
    }

    /// Adds a route that maps `method` and `path` to `handler`.
    pub fn add(self, method: Method, path: &str, handler: Handler) -> (r: Routes)
        ensures
            r.prefix == self.prefix,
            r.entries@.len() == self.entries@.len() + 1,
            forall|k: int| 0 <= k < self.entries@.len() ==> r.entries@[k] == self.entries@[k],
            r.maps(self.entries@.len() as int, method, path@, handler),
    {
        let mut entries = self.entries;
        entries.push(Route { method, path: path.to_string(), handler });
        Routes { prefix: self.prefix, entries }
    }
}

} // verus!
