//! A memory-safe resource-management substrate for a PDF rendering library:
//! a generic handle table addressing safely-owned values by opaque integer
//! handles, and a budgeted, multi-policy cache (the store) that bounds the
//! total byte size of re-creatable resources, together with the byte buffers,
//! streams and decode-filter helpers the rest of the library is built on.

use vstd::prelude::*;

pub mod buffer;
pub mod colorspace;
pub mod device;
pub mod document;
pub mod font;
pub mod geometry;
pub mod image;
pub mod jbig2;
pub mod object;
pub mod pixmap;
pub mod predictor;
pub mod error;
pub mod handle;
pub mod store;
pub mod stream;

verus! {

/// Opaque identifier handed across the foreign boundary in place of a pointer.
/// The value 0 is reserved and always invalid.
pub type Handle = u64;

} // verus!
