//! Locations: one unit of crawl work.
use vstd::prelude::*;

verus! {

/// Opaque auxiliary data carried with a location (request headers, provenance).
#[verifier::external_type_specification]
#[verifier::external_body]
pub struct ExValue(serde_json::Value);

/// Relies on `Clone` for `serde_json::Value`: it is derived, and the object map
/// clones its entries, so the copy is the same JSON value.
pub assume_specification[ <serde_json::Value as Clone>::clone ](v: &serde_json::Value) -> (r:
    serde_json::Value)
    ensures
        r == *v,
;

/// Relies on `serde_json::Value::Null`: the empty auxiliary data.
#[verifier::external_body]
fn null_data() -> (r: serde_json::Value) {
    serde_json::Value::Null
}

/// A location to crawl: an address, its distance from a seed, and auxiliary data.
/// Two locations are the same location when their addresses are equal.
#[derive(Debug)]
pub struct Url {
    pub url: String,
    pub deep: i32,
    pub data: serde_json::Value,
}

impl Url {
    /// A location without auxiliary data (its data is JSON `null`).
    pub fn new(url: String, deep: i32) -> (r: Url)
        ensures
            r.url@ == url@,
            r.deep == deep,
    {
        Url { url, deep, data: null_data() }
    }

    /// A location with the given auxiliary data.
    pub fn new_with_data(url: String, deep: i32, data: serde_json::Value) -> (r: Url)
        ensures
            r.url@ == url@,
            r.deep == deep,
            r.data == data,
    {
        Url { url, deep, data }
    }
}

impl Clone for Url {
    fn clone(&self) -> (r: Url)
        ensures
            r == *self,
    {
        Url { url: self.url.clone(), deep: self.deep, data: self.data.clone() }
    }
}

impl PartialEq for Url {
    fn eq(&self, other: &Url) -> (r: bool)
        ensures
            r == (self.url@ == other.url@),
    {
        self.url == other.url
    }
}

impl vstd::std_specs::cmp::PartialEqSpecImpl for Url {
    open spec fn obeys_eq_spec() -> bool {
        true
    }

    open spec fn eq_spec(&self, other: &Url) -> bool {
        self.url@ == other.url@
    }
}

impl Eq for Url {
}

} // verus!
