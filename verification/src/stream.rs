//! Streams: buffered reading over a byte source.
//!
//! A stream draws bytes from a `StreamSource` through an internal staging
//! buffer, so small reads do not hit the source one byte at a time. The
//! in-memory source is provided here; sources that do I/O live outside the
//! library and hand their bytes to `open_memory`.

use vstd::prelude::*;
use crate::buffer::Buffer;
use crate::error::Error;

verus! {

/// Seek relative to the start.
pub const SEEK_SET: i32 = 0;

/// Seek relative to the current position.
pub const SEEK_CUR: i32 = 1;

/// Seek relative to the end.
pub const SEEK_END: i32 = 2;

/// Size of the staging buffer a stream reads through.
pub const STREAM_BUFFER_SIZE: usize = 8192;

/// A source of bytes a stream can drain: a fixed byte content and a
/// position of how far it has been drained.
pub trait StreamSource: Sized {
    /// The full contents this source ranges over.
    spec fn source_data(&self) -> Seq<u8>;

    /// How many bytes have been handed out so far.
    spec fn source_pos(&self) -> int;

    /// The source's own consistency condition.
    spec fn source_wf(&self) -> bool;

    /// Hands out the next `min(max, what is left)` bytes, in order.
    fn source_read(&mut self, max: usize) -> (r: Vec<u8>)
        requires
            old(self).source_wf(),
        ensures
            final(self).source_wf(),
            final(self).source_data() == old(self).source_data(),
            r@.len() == vstd::math::min(
                max as int,
                old(self).source_data().len() - old(self).source_pos(),
            ),
            r@ == old(self).source_data().subrange(
                old(self).source_pos(),
                old(self).source_pos() + r@.len(),
            ),
            final(self).source_pos() == old(self).source_pos() + r@.len(),
    ;

    /// The total length of the source's contents.
    fn source_len(&self) -> (n: usize)
        requires
            self.source_wf(),
        ensures
            n == self.source_data().len(),
    ;
}

/// An in-memory source: owns its bytes outright.
pub struct MemorySource {
    data: Vec<u8>,
    position: usize,
}

impl MemorySource {
    /// A source over a copy of the given bytes, positioned at the start.
    pub fn new(data: Vec<u8>) -> (s: MemorySource)
        ensures
            s.source_wf(),
            s.source_data() == data@,
            s.source_pos() == 0,
    {
        MemorySource { data, position: 0 }
    }
}

impl StreamSource for MemorySource {
    closed spec fn source_data(&self) -> Seq<u8> {
        self.data@
    }

    closed spec fn source_pos(&self) -> int {
        self.position as int
    }

    closed spec fn source_wf(&self) -> bool {
        self.position <= self.data@.len()
    }

    fn source_read(&mut self, max: usize) -> (r: Vec<u8>)
    {
        let avail = self.data.len() - self.position;
        let take = if max < avail {
            max
        } else {
            avail
        };
        let mut r: Vec<u8> = Vec::new();
        let mut i: usize = 0;
        while i < take
            invariant
                i <= take,
                self.position + take <= self.data@.len(),
                self.data@.len() <= usize::MAX,
                r@ == self.data@.subrange(self.position as int, self.position + i),
            decreases take - i,
        {
            r.push(self.data[self.position + i]);
            proof {
                assert(self.data@.subrange(self.position as int, self.position + i + 1)
                    =~= self.data@.subrange(self.position as int, self.position + i).push(
                    self.data@[self.position + i],
                ));
            }
            i = i + 1;
        }
        self.position = self.position + take;
        r
    }

    fn source_len(&self) -> (n: usize)
    {
        self.data.len()
    }
}

/// A buffered stream over a byte source.
pub struct Stream<S: StreamSource> {
    inner: S,
    buffer: Vec<u8>,
    rp: usize,
    wp: usize,
    pos: usize,
    eof: bool,
    error: bool,
}

impl<S: StreamSource> Stream<S> {
    /// The full contents the stream ranges over.
    pub closed spec fn stream_data(&self) -> Seq<u8> {
        self.inner.source_data()
    }

    /// How many bytes the stream's caller has consumed.
    pub closed spec fn consumed(&self) -> int {
        self.pos - (self.wp - self.rp)
    }

    /// The staging window `buffer[rp..wp]` holds exactly the source bytes
    /// between what the caller consumed and what the source handed out.
    pub closed spec fn wf(&self) -> bool {
        &&& self.inner.source_wf()
        &&& self.rp <= self.wp <= self.buffer@.len()
        &&& self.pos == self.inner.source_pos()
        &&& self.pos <= self.stream_data().len()
        &&& self.wp - self.rp <= self.pos
        &&& self.buffer@.subrange(self.rp as int, self.wp as int) == self.stream_data().subrange(
            self.consumed(),
            self.pos as int,
        )
        &&& self.eof ==> self.pos == self.stream_data().len()
        &&& !self.error
    }

    /// A stream over the given source.
    pub fn from_source(inner: S) -> (s: Stream<S>)
        requires
            inner.source_wf(),
            inner.source_pos() == 0,
        ensures
            s.wf(),
            s.stream_data() == inner.source_data(),
            s.consumed() == 0,
    {
        let s = Stream {
            inner,
            buffer: Vec::new(),
            rp: 0,
            wp: 0,
            pos: 0,
            eof: false,
            error: false,
        };
        proof {
            assert(s.buffer@.subrange(0, 0) =~= s.stream_data().subrange(0, 0));
        }
        s
    }

    /// How many bytes have been consumed from the start.
    pub fn tell(&self) -> (n: usize)
        requires
            self.wf(),
        ensures
            n == self.consumed(),
    {
        self.pos - (self.wp - self.rp)
    }

    /// The stream's total length.
    pub fn len(&self) -> (r: Option<u64>)
        requires
            self.wf(),
        ensures
            r == Some(self.stream_data().len() as u64),
    {
        Some(self.inner.source_len() as u64)
    }

    /// True when the stream holds no bytes at all.
    pub fn is_empty(&self) -> (r: bool)
        requires
            self.wf(),
        ensures
            r == (self.stream_data().len() == 0),
    {
        self.inner.source_len() == 0
    }

    /// Draws the next chunk from the source into the staging buffer.
    /// Returns how many bytes arrived; 0 means the source is exhausted.
    fn fill_buffer(&mut self) -> (n: usize)
        requires
            old(self).wf(),
        ensures
            final(self).wf(),
            final(self).stream_data() == old(self).stream_data(),
            final(self).consumed() == old(self).consumed(),
            n == 0 <==> old(self).pos_spec() == old(self).stream_data().len(),
            final(self).buffered() == old(self).buffered() + n,
    {
        if self.eof {
            return 0;
        }
        let ghost data = self.stream_data();
        let total_len = self.inner.source_len();
        let chunk = self.inner.source_read(STREAM_BUFFER_SIZE);
        let got = chunk.len();
        if got == 0 {
            self.eof = true;
            proof {
                assert(self.buffer@.subrange(self.rp as int, self.wp as int) == data.subrange(
                    self.consumed(),
                    self.pos as int,
                ));
            }
            return 0;
        }
        // Compact the unread window and append the new chunk behind it.
        let mut nb: Vec<u8> = Vec::new();
        let mut i: usize = self.rp;
        while i < self.wp
            invariant
                self.rp <= i <= self.wp <= self.buffer@.len(),
                nb@ == self.buffer@.subrange(self.rp as int, i as int),
            decreases self.wp - i,
        {
            nb.push(self.buffer[i]);
            proof {
                assert(self.buffer@.subrange(self.rp as int, i + 1) =~= self.buffer@.subrange(
                    self.rp as int,
                    i as int,
                ).push(self.buffer@[i as int]));
            }
            i = i + 1;
        }
        let mut j: usize = 0;
        while j < got
            invariant
                j <= got,
                got == chunk@.len(),
                nb@ == self.buffer@.subrange(self.rp as int, self.wp as int) + chunk@.subrange(
                    0,
                    j as int,
                ),
                self.rp <= self.wp <= self.buffer@.len(),
            decreases got - j,
        {
            nb.push(chunk[j]);
            proof {
                assert(self.buffer@.subrange(self.rp as int, self.wp as int) + chunk@.subrange(
                    0,
                    j + 1,
                ) =~= (self.buffer@.subrange(self.rp as int, self.wp as int) + chunk@.subrange(
                    0,
                    j as int,
                )).push(chunk@[j as int]));
            }
            j = j + 1;
        }
        proof {
            assert(chunk@.subrange(0, chunk@.len() as int) =~= chunk@);
        }
        let window = self.wp - self.rp;
        self.buffer = nb;
        self.rp = 0;
        self.wp = window + got;
        self.pos = self.pos + got;
        proof {
            assert(self.buffer@.subrange(0, self.wp as int) =~= self.buffer@);
            assert(self.buffer@ =~= data.subrange(self.consumed(), self.pos as int));
        }
        got
    }

    /// How many bytes sit ready in the staging window.
    pub closed spec fn buffered(&self) -> int {
        self.wp - self.rp
    }

    /// The source-side position, for the internal contracts.
    pub closed spec fn pos_spec(&self) -> int {
        self.pos as int
    }

    /// Reads one byte, or `None` at the end of the stream.
    pub fn read_byte(&mut self) -> (r: Result<Option<u8>, Error>)
        requires
            old(self).wf(),
        ensures
            final(self).wf(),
            final(self).stream_data() == old(self).stream_data(),
            (r matches Ok(b) && match b {
                Some(v) => old(self).consumed() < old(self).stream_data().len() && v == old(self).stream_data()[old(self).consumed()] && final(self).consumed() == old(self).consumed() + 1,
                None => old(self).consumed() == old(self).stream_data().len() && final(self).consumed() == old(self).consumed(),
            }),
    {
        if self.rp >= self.wp {
            let n = self.fill_buffer();
            if n == 0 {
                proof {
                    assert(self.consumed() == self.pos_spec());
                }
                return Ok(None);
            }
        }
        let b = self.buffer[self.rp];
        proof {
            let win = self.buffer@.subrange(self.rp as int, self.wp as int);
            let swin = self.stream_data().subrange(self.consumed(), self.pos as int);
            assert(win[0] == self.buffer@[self.rp as int]);
            assert(swin[0] == self.stream_data()[self.consumed()]);
            assert(self.buffer@.subrange(self.rp + 1, self.wp as int) =~= win.subrange(
                1,
                win.len() as int,
            ));
            assert(self.stream_data().subrange(self.consumed() + 1, self.pos as int)
                =~= swin.subrange(1, swin.len() as int));
        }
        self.rp = self.rp + 1;
        Ok(Some(b))
    }

    /// Reads up to `n` bytes: the next `min(n, what is left)` bytes of the
    /// stream, in order.
    pub fn read(&mut self, n: usize) -> (r: Result<Vec<u8>, Error>)
        requires
            old(self).wf(),
        ensures
            final(self).wf(),
            final(self).stream_data() == old(self).stream_data(),
            (r matches Ok(v) && {
                &&& v@.len() == vstd::math::min(
                    n as int,
                    old(self).stream_data().len() - old(self).consumed(),
                )
                &&& v@ == old(self).stream_data().subrange(
                    old(self).consumed(),
                    old(self).consumed() + v@.len(),
                )
                &&& final(self).consumed() == old(self).consumed() + v@.len()
            }),
    {
        let ghost c0 = old(self).consumed();
        let ghost data = old(self).stream_data();
        let mut out: Vec<u8> = Vec::new();
        let mut done = false;
        proof {
            assert(data.subrange(c0, c0) =~= out@);
        }
        while !done && out.len() < n
            invariant
                self.wf(),
                self.stream_data() == data,
                out@.len() <= n,
                0 <= c0,
                c0 + out@.len() == self.consumed(),
                out@ == data.subrange(c0, c0 + out@.len()),
                done ==> self.consumed() == data.len(),
            decreases
                    n - out@.len(),
                    (if done { 0int } else { 1int }),
                    self.stream_data().len() - self.pos,

        {
            if self.rp < self.wp {
                let take = if n - out.len() < self.wp - self.rp {
                    n - out.len()
                } else {
                    self.wp - self.rp
                };
                let bl = self.buffer.len();
                let mut i: usize = 0;
                let ghost out0 = out@;
                while i < take
                    invariant
                        i <= take,
                        self.rp + take <= self.wp <= self.buffer@.len(),
                        bl == self.buffer@.len(),
                        out@ == out0 + self.buffer@.subrange(self.rp as int, self.rp + i),
                    decreases take - i,
                {
                    out.push(self.buffer[self.rp + i]);
                    proof {
                        assert(out0 + self.buffer@.subrange(self.rp as int, self.rp + i + 1) =~= (
                        out0 + self.buffer@.subrange(self.rp as int, self.rp + i)).push(
                            self.buffer@[self.rp + i],
                        ));
                    }
                    i = i + 1;
                }
                proof {
                    let win = self.buffer@.subrange(self.rp as int, self.wp as int);
                    let swin = data.subrange(self.consumed(), self.pos as int);
                    assert(self.buffer@.subrange(self.rp as int, self.rp + take) =~= win.subrange(
                        0,
                        take as int,
                    ));
                    assert(win.subrange(0, take as int) == swin.subrange(0, take as int));
                    assert(swin.subrange(0, take as int) =~= data.subrange(
                        self.consumed(),
                        self.consumed() + take,
                    ));
                    assert(out@ == out0 + data.subrange(self.consumed(), self.consumed() + take));
                    assert(c0 + out0.len() == self.consumed());
                    assert(take <= self.wp - self.rp);
                    assert(self.consumed() + take <= self.pos as int);
                    assert(self.pos <= data.len());
                    let a = data.subrange(c0, c0 + out0.len());
                    let b2 = data.subrange(c0 + out0.len(), c0 + out0.len() + take);
                    let whole = data.subrange(c0, c0 + out0.len() + take);
                    assert forall|k: int| 0 <= k < whole.len() implies (a + b2)[k] == whole[k] by {
                        if k < a.len() {
                            assert((a + b2)[k] == a[k]);
                        } else {
                            assert((a + b2)[k] == b2[k - a.len()]);
                        }
                    }
                    assert(a + b2 =~= whole);
                    assert(out@ =~= data.subrange(c0, c0 + out0.len() + take));
                    assert(win.subrange(take as int, win.len() as int) =~= self.buffer@.subrange(
                        self.rp + take,
                        self.wp as int,
                    ));
                    assert(win.subrange(take as int, win.len() as int) == swin.subrange(
                        take as int,
                        swin.len() as int,
                    ));
                    assert(swin.subrange(take as int, swin.len() as int) =~= data.subrange(
                        self.consumed() + take,
                        self.pos as int,
                    ));
                }
                self.rp = self.rp + take;
            } else {
                let got = self.fill_buffer();
                if got == 0 {
                    done = true;
                }
            }
        }
        proof {
            if !done {
                assert(out@.len() == n);
            } else {
                assert(self.consumed() == data.len());
                assert(out@.len() == data.len() - c0);
            }
        }
        Ok(out)
    }

    /// Reads exactly `n` bytes, or fails with an end-of-file error when
    /// fewer are left — consuming those that were.
    pub fn read_exact(&mut self, n: usize) -> (r: Result<Vec<u8>, Error>)
        requires
            old(self).wf(),
        ensures
            final(self).wf(),
            final(self).stream_data() == old(self).stream_data(),
            (r is Ok) == (old(self).consumed() + n <= old(self).stream_data().len()),
            (r matches Ok(v) ==> {
                &&& v@ == old(self).stream_data().subrange(
                    old(self).consumed(),
                    old(self).consumed() + n,
                )
                &&& final(self).consumed() == old(self).consumed() + n
            }),
            (r matches Err(e) ==> e matches Error::Eof && final(self).consumed() == old(self).stream_data().len()),
    {
        let v = match self.read(n) {
            Ok(v) => v,
            Err(e) => {
                return Err(e);
            },
        };
        if v.len() < n {
            return Err(Error::Eof);
        }
        Ok(v)
    }

    /// Reads everything that is left of the stream.
    pub fn read_all(&mut self, initial_capacity: usize) -> (r: Result<Buffer, Error>)
        requires
            old(self).wf(),
        ensures
            final(self).wf(),
            final(self).stream_data() == old(self).stream_data(),
            (r matches Ok(b) && b@ == old(self).stream_data().subrange(
                old(self).consumed(),
                old(self).stream_data().len() as int,
            )),
            final(self).consumed() == old(self).stream_data().len(),
    {
        let _ = initial_capacity;
        let total = self.inner.source_len();
        let window = self.wp - self.rp;
        let rem = total - self.pos + window;
        let v = match self.read(rem) {
            Ok(v) => v,
            Err(e) => {
                return Err(e);
            },
        };
        Ok(Buffer::from_data(v))
    }
}

impl Stream<MemorySource> {
/// A stream over a copy of the given bytes.
pub fn open_memory(data: &[u8]) -> (s: Stream<MemorySource>)
    ensures
        s.wf(),
        s.stream_data() == data@,
        s.consumed() == 0,
{
    let mut v: Vec<u8> = Vec::new();
    let mut i: usize = 0;
    while i < data.len()
        invariant
            i <= data@.len(),
            v@ == data@.subrange(0, i as int),
        decreases data@.len() - i,
    {
        v.push(data[i]);
        proof {
            assert(data@.subrange(0, i + 1) =~= data@.subrange(0, i as int).push(data@[i as int]));
        }
        i = i + 1;
    }
    proof {
        assert(data@.subrange(0, data@.len() as int) =~= data@);
    }
    Stream::from_source(MemorySource::new(v))
}

/// A stream over a copy of a buffer's bytes.
pub fn open_buffer(buffer: &Buffer) -> (s: Stream<MemorySource>)
    ensures
        s.wf(),
        s.stream_data() == buffer@,
        s.consumed() == 0,
{
    Stream::open_memory(buffer.as_slice())
}
}

} // verus!
