//! JBIG2 decode filter: the bi-level image codec is not built into this
//! library, so decoding is uniformly rejected.

use vstd::prelude::*;
use crate::error::Error;

verus! {

/// Decode parameters for JBIG2 data: the shared segment stream, where the
/// PDF supplies one.
pub struct JBIG2DecodeParams {
    pub globals: Option<Vec<u8>>,
}

/// Decoding JBIG2 data always fails: no decoder for the format is built in.
pub fn decode_jbig2(_data: &[u8], _params: Option<&JBIG2DecodeParams>) -> (r: Result<
    Vec<u8>,
    Error,
>)
    ensures
        (r matches Err(e) && e matches Error::Generic(_)),
{
    Err(Error::generic("JBIG2 support not enabled"))
}

} // verus!
