//! Font handling.

use vstd::prelude::*;
use vstd::string::StringExecFns;

verus! {

/// A font, known by its name.
pub struct Font {
    name: String,
}

impl Font {
    /// The font's name.
    pub closed spec fn spec_name(&self) -> Seq<char> {
        self.name@
    }

    pub fn new(name: &str) -> (f: Font)
        ensures
            f.spec_name() == name@,
    {
        Font { name: String::from_str(name) }
    }

    pub fn name(&self) -> (r: &str)
        ensures
            r@ == self.spec_name(),
    {
        self.name.as_str()
    }
}

} // verus!
