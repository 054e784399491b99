//! Document state: raw bytes with a page-count estimate derived from them.

use vstd::prelude::*;
use vstd::string::StringSliceAdditionalSpecFns;

verus! {

/// Permission to print the document.
pub const FZ_PERMISSION_PRINT: i32 = 1;

/// Permission to copy content out of the document.
pub const FZ_PERMISSION_COPY: i32 = 2;

/// Permission to edit the document.
pub const FZ_PERMISSION_EDIT: i32 = 4;

/// Permission to annotate the document.
pub const FZ_PERMISSION_ANNOTATE: i32 = 8;

/// The byte pattern whose occurrences the page-count estimate counts.
pub open spec fn page_pattern() -> Seq<u8> {
    ("/Type /Page").spec_bytes()
}

/// True if `pat` occurs in `data` starting at position `i`.
pub open spec fn is_match_at(data: Seq<u8>, pat: Seq<u8>, i: int) -> bool {
    0 <= i && i + pat.len() <= data.len() && data.subrange(i, i + pat.len()) == pat
}

/// Number of positions below `upto` where `pat` occurs in `data`.
pub open spec fn count_matches_below(data: Seq<u8>, pat: Seq<u8>, upto: int) -> int
    decreases upto,
{
    if upto <= 0 {
        0
    } else {
        count_matches_below(data, pat, upto - 1) + if is_match_at(data, pat, upto - 1) {
            1int
        } else {
            0
        }
    }
}

/// Number of occurrences of `pat` in `data`, counting overlapping ones.
pub open spec fn match_count(data: Seq<u8>, pat: Seq<u8>) -> int {
    count_matches_below(data, pat, data.len() - pat.len() + 1)
}

/// The page-count heuristic: the number of page-object markers, clamped to
/// the positive `i32` range and to at least one page.
pub open spec fn page_estimate(data: Seq<u8>) -> int {
    let c = match_count(data, page_pattern());
    if c <= 0 {
        1
    } else if c > i32::MAX {
        i32::MAX as int
    } else {
        c
    }
}

/// True if `pat` occurs in `data` starting at position `i`.
fn match_at(data: &[u8], pat: &[u8], i: usize) -> (b: bool)
    requires
        i + pat@.len() <= data@.len(),
        data@.len() <= usize::MAX,
    ensures
        b == is_match_at(data@, pat@, i as int),
{
    let mut j: usize = 0;
    while j < pat.len()
        invariant
            j <= pat@.len(),
            i + pat@.len() <= data@.len(),
            data@.len() <= usize::MAX,
            forall|k: int| 0 <= k < j ==> data@[i + k] == pat@[k],
        decreases pat@.len() - j,
    {
        if data[i + j] != pat[j] {
            proof {
                assert(data@.subrange(i as int, i + pat@.len())[j as int] == data@[i + j]);
            }
            return false;
        }
        j = j + 1;
    }
    proof {
        assert(data@.subrange(i as int, i + pat@.len()) =~= pat@);
    }
    true
}

/// Estimates how many pages the document holds by counting page-object
/// markers, with at least one page assumed.
pub fn estimate_page_count(data: &[u8]) -> (n: i32)
    ensures
        n == page_estimate(data@),
{
    let pat = "/Type /Page";
    proof {
        reveal_strlit("/Type /Page");
        broadcast use vstd::string::is_ascii_spec_bytes;

        assert(vstd::string::is_ascii(pat));
        assert(pat.spec_bytes().len() == 11);
    }
    let patb = pat.as_bytes();
    if data.len() < patb.len() {
        return 1;
    }
    let upper = data.len() - patb.len();
    let mut count: usize = 0;
    let mut i: usize = 0;
    while i <= upper
        invariant
            i <= upper + 1,
            upper == data@.len() - patb@.len(),
            patb@ == page_pattern(),
            patb@.len() == 11,
            data@.len() <= usize::MAX,
            count == count_matches_below(data@, patb@, i as int),
            count <= i,
        decreases upper + 1 - i,
    {
        if match_at(data, patb, i) {
            count = count + 1;
        }
        i = i + 1;
    }
    if count == 0 {
        1
    } else if count > (i32::MAX as usize) {
        i32::MAX
    } else {
        count as i32
    }
}

/// An opened document: its raw bytes and what has been established about
/// them so far.
pub struct Document {
    /// The document's raw bytes.
    pub data: Vec<u8>,
    /// Estimated number of pages, at least one.
    pub page_count: i32,
    /// Whether a password is required before content access.
    pub needs_password: bool,
    /// Whether the caller has authenticated.
    pub authenticated: bool,
}

impl Document {
    /// Wraps raw document bytes, estimating the page count from them. The
    /// document starts without password protection and authenticated.
    pub fn new(data: Vec<u8>) -> (d: Document)
        ensures
            d.data@ == data@,
            d.page_count == page_estimate(data@),
            !d.needs_password,
            d.authenticated,
    {
        let page_count = estimate_page_count(data.as_slice());
        Document { data, page_count, needs_password: false, authenticated: true }
    }
}

} // verus!
