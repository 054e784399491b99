//! Byte buffers: a growable byte array with append, resize and encoding
//! helpers, plus reader/writer adapters over it.

use vstd::prelude::*;
use vstd::utf8::valid_utf8;
use vstd::string::StringSliceAdditionalSpecFns;
use base64::Engine;
use md5::Digest;
use md5::Md5;
use crate::error::Error;

verus! {

/// What the standard base64 alphabet (with padding) encodes these bytes to.
pub uninterp spec fn base64_encoding_of(data: Seq<u8>) -> Seq<char>;

/// What the standard base64 alphabet decodes this text to, where it decodes
/// at all.
pub uninterp spec fn base64_decoding_of(text: Seq<char>) -> Option<Seq<u8>>;

/// The MD5 digest of these bytes.
pub uninterp spec fn md5_of(data: Seq<u8>) -> Seq<u8>;

#[verifier::external_type_specification]
#[verifier::external_body]
pub struct ExBytes(bytes::Bytes);

/// The bytes a `bytes::Bytes` value holds.
pub uninterp spec fn bytes_content(b: bytes::Bytes) -> Seq<u8>;

/// Relies on base64's `STANDARD.encode`: the standard alphabet with
/// padding, a function of the input bytes alone.
#[verifier::external_body]
fn base64_encode(data: &Vec<u8>) -> (r: String)
    ensures
        r@ == base64_encoding_of(data@),
        data@.len() == 0 ==> r@.len() == 0,
{
    base64::engine::general_purpose::STANDARD.encode(data.as_slice())
}

/// Relies on base64's `STANDARD.decode`: it returns the decoded bytes
/// exactly on text the standard alphabet can decode, and its error's
/// message otherwise.
#[verifier::external_body]
fn base64_decode(text: &str) -> (r: Result<Vec<u8>, String>)
    ensures
        (r is Ok) == (base64_decoding_of(text@) is Some),
        (r matches Ok(v) ==> base64_decoding_of(text@) == Some(v@)),
{
    match base64::engine::general_purpose::STANDARD.decode(text.as_bytes()) {
        Ok(v) => Ok(v),
        Err(e) => Err(format!("Invalid base64: {}", e)),
    }
}

/// Relies on the md5 crate's `Md5`: a 16-byte digest, a function of the
/// input bytes alone.
#[verifier::external_body]
fn md5_compute(data: &Vec<u8>) -> (r: [u8; 16])
    ensures
        r@ == md5_of(data@),
        r@.len() == 16,
{
    let mut hasher = Md5::new();
    hasher.update(data.as_slice());
    hasher.finalize().into()
}

/// Relies on `bytes::Bytes::copy_from_slice`: the new value holds a copy of
/// the given bytes.
#[verifier::external_body]
fn bytes_copy_from(data: &Vec<u8>) -> (r: bytes::Bytes)
    ensures
        bytes_content(r) == data@,
{
    bytes::Bytes::copy_from_slice(data.as_slice())
}

/// Relies on std's `str::from_utf8`: `Ok` exactly on valid UTF-8, viewing
/// the same bytes.
#[verifier::external_body]
fn utf8_from_bytes(data: &[u8]) -> (r: Option<&str>)
    ensures
        (r is Some) == valid_utf8(data@),
        (r matches Some(s) ==> s.spec_bytes() == data@),
{
    std::str::from_utf8(data).ok()
}

/// Relies on std's `Vec::capacity`: the capacity is never below the length.
#[verifier::external_body]
fn vec_capacity(v: &Vec<u8>) -> (c: usize)
    ensures
        c >= v@.len(),
{
    v.capacity()
}

/// A copy of a byte slice as an owned vector.
pub(crate) fn copy_bytes(data: &[u8]) -> (r: Vec<u8>)
    ensures
        r@ == data@,
{
    let mut r: Vec<u8> = Vec::new();
    let mut i: usize = 0;
    while i < data.len()
        invariant
            i <= data@.len(),
            r@ == data@.subrange(0, i as int),
        decreases data@.len() - i,
    {
        r.push(data[i]);
        proof {
            assert(r@ =~= data@.subrange(0, i + 1));
        }
        i = i + 1;
    }
    proof {
        assert(data@.subrange(0, data@.len() as int) =~= data@);
    }
    r
}

/// A growable byte array.
#[derive(Debug, Clone)]
pub struct Buffer {
    data: Vec<u8>,
}

impl View for Buffer {
    type V = Seq<u8>;

    closed spec fn view(&self) -> Seq<u8> {
        self.data@
    }
}

impl Buffer {
    /// An empty buffer with room reserved for `capacity` bytes.
    pub fn new(capacity: usize) -> (b: Buffer)
        ensures
            b@ == Seq::<u8>::empty(),
    {
        Buffer { data: Vec::with_capacity(capacity) }
    }

    /// A buffer owning the given bytes.
    pub fn from_data(data: Vec<u8>) -> (b: Buffer)
        ensures
            b@ == data@,
    {
        Buffer { data }
    }

    /// A buffer holding a copy of the given bytes.
    pub fn from_slice(data: &[u8]) -> (b: Buffer)
        ensures
            b@ == data@,
    {
        Buffer { data: copy_bytes(data) }
    }

    /// Decodes standard base64 text into a new buffer; text the alphabet
    /// cannot decode is rejected as a format error.
    pub fn from_base64(text: &str) -> (r: Result<Buffer, Error>)
        ensures
            (r is Ok) == (base64_decoding_of(text@) is Some),
            (r matches Ok(b) ==> base64_decoding_of(text@) == Some(b@)),
            (r matches Err(e) ==> e matches Error::Format(_)),
    {
        match base64_decode(text) {
            Ok(v) => Ok(Buffer { data: v }),
            Err(msg) => Err(Error::Format(msg)),
        }
    }

    pub fn len(&self) -> (n: usize)
        ensures
            n == self@.len(),
    {
        self.data.len()
    }

    pub fn is_empty(&self) -> (r: bool)
        ensures
            r == (self@.len() == 0),
    {
        self.data.len() == 0
    }

    /// Bytes of room currently reserved; at least the length.
    pub fn capacity(&self) -> (c: usize)
        ensures
            c >= self@.len(),
    {
        vec_capacity(&self.data)
    }

    pub fn as_slice(&self) -> (r: &[u8])
        ensures
            r@ == self@,
    {
        self.data.as_slice()
    }

    /// The contents as text, where they are valid UTF-8; rejected as a
    /// format error otherwise.
    pub fn as_str(&self) -> (r: Result<&str, Error>)
        ensures
            (r is Ok) == valid_utf8(self@),
            (r matches Ok(s) ==> s.spec_bytes() == self@),
            (r matches Err(e) ==> e matches Error::Format(_)),
    {
        match utf8_from_bytes(self.data.as_slice()) {
            Some(s) => Ok(s),
            None => Err(Error::format("Invalid UTF-8")),
        }
    }

    /// A copy of the contents as an owned vector.
    pub fn to_vec(&self) -> (r: Vec<u8>)
        ensures
            r@ == self@,
    {
        copy_bytes(self.data.as_slice())
    }

    /// Grows with zero bytes, or truncates, to exactly `capacity` bytes.
    pub fn resize(&mut self, capacity: usize)
        ensures
            final(self)@.len() == capacity,
            forall|i: int| 0 <= i < capacity && i < old(self)@.len() ==> final(self)@[i] == old(
                self,
            )@[i],
            forall|i: int| old(self)@.len() <= i < capacity ==> final(self)@[i] == 0,
    {
        if capacity <= self.data.len() {
            self.data.truncate(capacity);
        } else {
            while self.data.len() < capacity
                invariant
                    old(self)@.len() <= self.data@.len() <= capacity,
                    self.data@.subrange(0, old(self)@.len() as int) == old(self)@,
                    forall|i: int| old(self)@.len() <= i < self.data@.len() ==> self.data@[i] == 0,
                decreases capacity - self.data@.len(),
            {
                self.data.push(0);
                proof {
                    assert(self.data@.subrange(0, old(self)@.len() as int) =~= old(self)@);
                }
            }
        }
    }

    /// Empties the buffer.
    pub fn clear(&mut self)
        ensures
            final(self)@ == Seq::<u8>::empty(),
    {
        self.data.clear();
    }

    /// Appends a copy of the given bytes.
    pub fn append_data(&mut self, data: &[u8])
        ensures
            final(self)@ == old(self)@ + data@,
    {
        let mut i: usize = 0;
        while i < data.len()
            invariant
                i <= data@.len(),
                self.data@ == old(self)@ + data@.subrange(0, i as int),
            decreases data@.len() - i,
        {
            self.data.push(data[i]);
            proof {
                assert(old(self)@ + data@.subrange(0, i + 1) =~= (old(self)@ + data@.subrange(
                    0,
                    i as int,
                )).push(data@[i as int]));
            }
            i = i + 1;
        }
        proof {
            assert(data@.subrange(0, data@.len() as int) =~= data@);
        }
    }

    /// Appends one byte.
    pub fn append_byte(&mut self, byte: u8)
        ensures
            final(self)@ == old(self)@.push(byte),
    {
        self.data.push(byte);
    }

    /// Appends the UTF-8 bytes of a string.
    pub fn append_string(&mut self, s: &str)
        ensures
            final(self)@ == old(self)@ + s.spec_bytes(),
    {
        self.append_data(s.as_bytes());
    }

    /// The contents as a shared `bytes::Bytes` value.
    pub fn to_bytes(&self) -> (r: bytes::Bytes)
        ensures
            bytes_content(r) == self@,
    {
        bytes_copy_from(&self.data)
    }

    /// The MD5 digest of the contents.
    pub fn md5_digest(&self) -> (r: [u8; 16])
        ensures
            r@ == md5_of(self@),
    {
        md5_compute(&self.data)
    }

    /// The contents encoded as standard base64 text.
    pub fn to_base64(&self) -> (r: String)
        ensures
            r@ == base64_encoding_of(self@),
    {
        base64_encode(&self.data)
    }
}

impl From<Vec<u8>> for Buffer {
    /// A buffer owning the given bytes.
    fn from(data: Vec<u8>) -> (b: Buffer)
        ensures
            b@ == data@,
    {
        Buffer { data }
    }
}

impl vstd::std_specs::convert::FromSpecImpl<Vec<u8>> for Buffer {
    open spec fn obeys_from_spec() -> bool {
        false
    }

    open spec fn from_spec(data: Vec<u8>) -> Buffer {
        arbitrary()
    }
}

impl<'a> From<&'a [u8]> for Buffer {
    /// A buffer holding a copy of the given bytes.
    fn from(data: &'a [u8]) -> (b: Buffer)
        ensures
            b@ == data@,
    {
        Buffer::from_slice(data)
    }
}

impl<'a> vstd::std_specs::convert::FromSpecImpl<&'a [u8]> for Buffer {
    open spec fn obeys_from_spec() -> bool {
        false
    }

    open spec fn from_spec(data: &'a [u8]) -> Buffer {
        arbitrary()
    }
}

impl<'a> From<&'a str> for Buffer {
    /// A buffer holding a copy of the string's UTF-8 bytes.
    fn from(s: &'a str) -> (b: Buffer)
        ensures
            b@ == s.spec_bytes(),
    {
        Buffer { data: copy_bytes(s.as_bytes()) }
    }
}

impl<'a> vstd::std_specs::convert::FromSpecImpl<&'a str> for Buffer {
    open spec fn obeys_from_spec() -> bool {
        false
    }

    open spec fn from_spec(s: &'a str) -> Buffer {
        arbitrary()
    }
}

impl Default for Buffer {
    /// An empty buffer.
    fn default() -> (b: Buffer)
        ensures
            b@ == Seq::<u8>::empty(),
    {
        Buffer::new(0)
    }
}

/// Reads a buffer's bytes front to back.
pub struct BufferReader {
    buffer: Buffer,
    position: usize,
}

impl BufferReader {
    /// The bytes being read.
    pub closed spec fn contents(&self) -> Seq<u8> {
        self.buffer@
    }

    /// How many bytes have been consumed.
    pub closed spec fn consumed(&self) -> int {
        self.position as int
    }

    /// The read position never runs past the end.
    pub closed spec fn wf(&self) -> bool {
        self.position <= self.buffer@.len()
    }

    pub fn new(buffer: Buffer) -> (r: BufferReader)
        ensures
            r.wf(),
            r.contents() == buffer@,
            r.consumed() == 0,
    {
        BufferReader { buffer, position: 0 }
    }

    pub fn position(&self) -> (p: usize)
        ensures
            p == self.consumed(),
    {
        self.position
    }

    /// Bytes left to read.
    pub fn remaining(&self) -> (n: usize)
        requires
            self.wf(),
        ensures
            n == self.contents().len() - self.consumed(),
    {
        self.buffer.len() - self.position
    }

    /// Reads up to `n` bytes: the next `min(n, remaining)` bytes, advancing
    /// the position past them.
    pub fn read(&mut self, n: usize) -> (r: Vec<u8>)
        requires
            old(self).wf(),
        ensures
            final(self).wf(),
            final(self).contents() == old(self).contents(),
            r@.len() == vstd::math::min(n as int, old(self).contents().len() - old(
                self,
            ).consumed()),
            r@ == old(self).contents().subrange(
                old(self).consumed(),
                old(self).consumed() + r@.len(),
            ),
            final(self).consumed() == old(self).consumed() + r@.len(),
    {
        let avail = self.buffer.len() - self.position;
        let take = if n < avail {
            n
        } else {
            avail
        };
        let mut r: Vec<u8> = Vec::new();
        let s = self.buffer.as_slice();
        let mut i: usize = 0;
        while i < take
            invariant
                i <= take,
                s@.len() <= usize::MAX,
                self.position + take <= s@.len(),
                s@ == self.buffer@,
                r@ == s@.subrange(self.position as int, self.position + i),
            decreases take - i,
        {
            r.push(s[self.position + i]);
            proof {
                assert(s@.subrange(self.position as int, self.position + i + 1) =~= s@.subrange(
                    self.position as int,
                    self.position + i,
                ).push(s@[self.position + i]));
            }
            i = i + 1;
        }
        self.position = self.position + take;
        r
    }
}

/// Collects written bytes into a buffer.
pub struct BufferWriter {
    buffer: Buffer,
}

impl BufferWriter {
    /// The bytes written so far.
    pub closed spec fn written(&self) -> Seq<u8> {
        self.buffer@
    }

    pub fn new() -> (w: BufferWriter)
        ensures
            w.written() == Seq::<u8>::empty(),
    {
        BufferWriter { buffer: Buffer::new(256) }
    }

    /// Appends the given bytes; the whole slice is always taken.
    pub fn write(&mut self, data: &[u8]) -> (n: usize)
        ensures
            final(self).written() == old(self).written() + data@,
            n == data@.len(),
    {
        self.buffer.append_data(data);
        data.len()
    }

    /// Writing buffers nothing, so there is never anything to flush.
    pub fn flush(&mut self) -> (r: Result<(), Error>)
        ensures
            (r is Ok),
            final(self).written() == old(self).written(),
    {
        Ok(())
    }

    /// Hands the collected bytes over as a buffer.
    pub fn into_buffer(self) -> (b: Buffer)
        ensures
            b@ == self.written(),
    {
        self.buffer
    }

    /// The collected bytes, borrowed.
    pub fn buffer(&self) -> (b: &Buffer)
        ensures
            b@ == self.written(),
    {
        &self.buffer
    }
}

impl Default for BufferWriter {
    /// A writer with nothing written yet.
    fn default() -> (w: BufferWriter)
        ensures
            w.written() == Seq::<u8>::empty(),
    {
        BufferWriter::new()
    }
}

} // verus!
