//! Rendering devices.
//!
//! Devices consume geometry, text and images; their interfaces traffic in
//! floating-point coordinates, so they live with the rendering code outside
//! this library. The discarding device's state is declared here: it holds
//! nothing at all.

use vstd::prelude::*;

verus! {

/// A device that discards everything drawn into it.
pub struct NullDevice;

impl NullDevice {
    pub fn new() -> (d: NullDevice)
        ensures
            d == NullDevice,
    {
        NullDevice
    }
}

} // verus!
