//! Protocol buffers specifications (not read yet).
use vstd::prelude::*;

verus! {

/// The text every reading of a protocol buffers specification returns.
pub open spec fn proto_placeholder() -> Seq<char> {
    "you should use prost-types crate"@
}

/// A protocol buffers specification, kept as its text.
#[derive(Debug, Clone)]
pub struct Proto3 {
    pub spec: String,
}

impl Proto3 {
    pub fn new(val: &str) -> (r: Proto3)
        ensures
            r.spec@ == val@,
    {
        Proto3 { spec: val.to_owned() }
    }

    pub fn get_version(&self) -> (r: String)
        ensures
            r@ == proto_placeholder(),
    {
        "you should use prost-types crate".to_owned()
    }

    pub fn get_description(&self) -> (r: String)
        ensures
            r@ == proto_placeholder(),
    {
        "you should use prost-types crate".to_owned()
    }

    pub fn get_paths_len(&self) -> (r: usize)
        ensures
            r == 2,
    {
        2
    }

    pub fn get_title(&self) -> (r: String)
        ensures
            r@ == proto_placeholder(),
    {
        "you should use prost-types crate".to_owned()
    }

    pub fn get_paths(&self) -> (r: Vec<crate::app::dao::catalog::handlers::Path>)
        ensures
            r@.len() == 0,
    {
        Vec::new()
    }
}

} // verus!
