//! PDF object primitives: names, strings and object references.

use vstd::prelude::*;
use vstd::string::StringExecFns;

verus! {

/// A PDF name object, written `/Name`.
#[derive(Debug, Clone, PartialEq, Eq, Hash)]
pub struct Name(pub String);

impl Name {
    pub fn new(s: &str) -> (n: Name)
        ensures
            n.0@ == s@,
    {
        Name(String::from_str(s))
    }
}

/// A PDF string object: raw bytes, not necessarily text.
#[derive(Debug, Clone)]
pub struct PdfString(Vec<u8>);

impl PdfString {
    /// The string's bytes.
    pub closed spec fn spec_bytes(&self) -> Seq<u8> {
        self.0@
    }

    pub fn new(data: Vec<u8>) -> (s: PdfString)
        ensures
            s.spec_bytes() == data@,
    {
        PdfString(data)
    }

    pub fn as_bytes(&self) -> (r: &[u8])
        ensures
            r@ == self.spec_bytes(),
    {
        self.0.as_slice()
    }
}

/// A reference to an indirect PDF object: object number and generation.
#[derive(Debug, Clone, Copy, PartialEq, Eq, Hash, Structural)]
pub struct ObjRef {
    pub num: i32,
    pub generation: i32,
}

impl ObjRef {
    pub fn new(num: i32, generation: i32) -> (r: ObjRef)
        ensures
            r == (ObjRef { num, generation }),
    {
        ObjRef { num, generation }
    }
}

} // verus!
