//! Colorspace definitions.

use vstd::prelude::*;
use vstd::string::StringExecFns;

verus! {

/// A device colorspace: a name and its number of colour components.
#[derive(Debug, Clone)]
pub struct Colorspace {
    name: String,
    n: u8,
}

impl Colorspace {
    /// The colorspace's name.
    pub closed spec fn spec_name(&self) -> Seq<char> {
        self.name@
    }

    /// The number of colour components.
    pub closed spec fn spec_n(&self) -> u8 {
        self.n
    }

    /// Every constructor keeps the component count in the device range.
    pub closed spec fn valid(&self) -> bool {
        1 <= self.n <= 4
    }

    /// What `valid` guarantees about the component count.
    pub proof fn lemma_valid_n(&self)
        requires
            self.valid(),
        ensures
            1 <= self.spec_n() <= 4,
    {
    }

    /// Single-component grayscale.
    pub fn device_gray() -> (c: Colorspace)
        ensures
            c.valid(),
            c.spec_name() == "DeviceGray"@,
            c.spec_n() == 1,
    {
        Colorspace { name: String::from_str("DeviceGray"), n: 1 }
    }

    /// Three-component red/green/blue.
    pub fn device_rgb() -> (c: Colorspace)
        ensures
            c.valid(),
            c.spec_name() == "DeviceRGB"@,
            c.spec_n() == 3,
    {
        Colorspace { name: String::from_str("DeviceRGB"), n: 3 }
    }

    /// Four-component cyan/magenta/yellow/black.
    pub fn device_cmyk() -> (c: Colorspace)
        ensures
            c.valid(),
            c.spec_name() == "DeviceCMYK"@,
            c.spec_n() == 4,
    {
        Colorspace { name: String::from_str("DeviceCMYK"), n: 4 }
    }

    pub fn name(&self) -> (r: &str)
        ensures
            r@ == self.spec_name(),
    {
        self.name.as_str()
    }

    pub fn n(&self) -> (r: u8)
        ensures
            r == self.spec_n(),
    {
        self.n
    }
}

} // verus!
