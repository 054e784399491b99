//! Pixmap: a pixel buffer for rendering.

use vstd::prelude::*;
use crate::colorspace::Colorspace;
use crate::error::Error;

verus! {

/// Byte components per pixel: the colorspace's components, plus one for
/// alpha where requested; one bare alpha component without a colorspace.
pub open spec fn pixel_components(colorspace: Option<Colorspace>, alpha: bool) -> int {
    match colorspace {
        Some(cs) => cs.spec_n() as int + if alpha {
            1int
        } else {
            0
        },
        None => 1,
    }
}

/// A rectangular pixel buffer: `w * h` pixels of `n` interleaved byte
/// components each, stored row by row.
pub struct Pixmap {
    x: i32,
    y: i32,
    w: i32,
    h: i32,
    n: u8,
    alpha: u8,
    stride: usize,
    colorspace: Option<Colorspace>,
    samples: Vec<u8>,
}

impl Pixmap {
    pub closed spec fn spec_width(&self) -> i32 {
        self.w
    }

    pub closed spec fn spec_height(&self) -> i32 {
        self.h
    }

    pub closed spec fn spec_n(&self) -> u8 {
        self.n
    }

    pub closed spec fn spec_alpha(&self) -> bool {
        self.alpha > 0
    }

    pub closed spec fn spec_stride(&self) -> usize {
        self.stride
    }

    pub closed spec fn spec_samples(&self) -> Seq<u8> {
        self.samples@
    }

    pub closed spec fn spec_colorspace(&self) -> Option<Colorspace> {
        self.colorspace
    }

    /// The dimensions are positive, the stride is one row's bytes, and the
    /// sample store holds exactly `h` rows.
    pub closed spec fn wf(&self) -> bool {
        &&& self.w > 0
        &&& self.h > 0
        &&& self.n >= 1
        &&& self.stride == self.w * self.n
        &&& self.samples@.len() == self.stride * self.h
    }

    /// Allocates a zero-filled pixmap. Fails on non-positive dimensions, on
    /// a pixmap with neither colorspace nor alpha, and on dimensions whose
    /// sample store would not be addressable.
    pub fn new(colorspace: Option<Colorspace>, w: i32, h: i32, alpha: bool) -> (r: Result<
        Pixmap,
        Error,
    >)
        requires
            (colorspace matches Some(cs) ==> cs.valid()),
        ensures
            (w <= 0 || h <= 0) ==> (r matches Err(e) && e matches Error::Argument(_)),
            (w > 0 && h > 0 && colorspace is None && !alpha) ==> (r matches Err(e)
                && e matches Error::Argument(_)),
            (r matches Ok(p) ==> {
                &&& p.wf()
                &&& w > 0 && h > 0
                &&& p.spec_width() == w
                &&& p.spec_height() == h
                &&& p.spec_alpha() == alpha
                &&& p.spec_colorspace() == colorspace
                &&& p.spec_n() as int == pixel_components(colorspace, alpha)
                &&& p.spec_samples() == Seq::new((p.spec_stride() * h) as nat, |i: int| 0u8)
            }),
            // Success is owed whenever the arguments are good and the
            // sample store is addressable.
            (w > 0 && h > 0 && ((colorspace is Some) || alpha) && w * pixel_components(
                colorspace,
                alpha,
            ) <= usize::MAX && w * pixel_components(colorspace, alpha) * h <= usize::MAX) ==> (
            r is Ok),
    {
        if w <= 0 || h <= 0 {
            return Err(Error::argument("Invalid dimensions"));
        }
        let n: u8 = match &colorspace {
            Some(cs) => {
                proof {
                    cs.lemma_valid_n();
                }
                cs.n() + if alpha {
                    1
                } else {
                    0
                }
            },
            None => {
                if alpha {
                    1
                } else {
                    return Err(Error::argument("Pixmap must have colorspace or alpha"));
                }
            },
        };
        proof {
            assert((w as int) * (n as int) <= (i32::MAX as int) * 255) by (nonlinear_arith)
                requires
                    0 < w <= i32::MAX,
                    0 <= n <= 255,
            ;
        }
        let wide = (w as u64) * (n as u64);
        if wide > (usize::MAX as u64) {
            return Err(Error::limit("Pixmap row too large"));
        }
        let stride = wide as usize;
        proof {
            assert((stride as int) * (h as int) <= (usize::MAX as int) * (i32::MAX as int))
                by (nonlinear_arith)
                requires
                    0 <= stride <= usize::MAX,
                    0 < h <= i32::MAX,
            ;
        }
        let total_wide = (stride as u128) * (h as u128);
        if total_wide > (usize::MAX as u128) {
            return Err(Error::limit("Pixmap too large"));
        }
        let total = total_wide as usize;
        let mut samples: Vec<u8> = Vec::new();
        let mut i: usize = 0;
        while i < total
            invariant
                i <= total,
                samples@ =~= Seq::new(i as nat, |k: int| 0u8),
            decreases total - i,
        {
            samples.push(0);
            proof {
                assert(samples@ =~= Seq::new((i + 1) as nat, |k: int| 0u8));
            }
            i = i + 1;
        }
        proof {
            assert(total as int == stride * h);
            assert(samples@ =~= Seq::new((stride * h) as nat, |k: int| 0u8));
        }
        Ok(
            Pixmap {
                x: 0,
                y: 0,
                w,
                h,
                n,
                alpha: if alpha {
                    1
                } else {
                    0
                },
                stride,
                colorspace,
                samples,
            },
        )
    }

    pub fn width(&self) -> (r: i32)
        ensures
            r == self.spec_width(),
    {
        self.w
    }

    pub fn height(&self) -> (r: i32)
        ensures
            r == self.spec_height(),
    {
        self.h
    }

    pub fn n(&self) -> (r: u8)
        ensures
            r == self.spec_n(),
    {
        self.n
    }

    pub fn has_alpha(&self) -> (r: bool)
        ensures
            r == self.spec_alpha(),
    {
        self.alpha > 0
    }

    pub fn stride(&self) -> (r: usize)
        ensures
            r == self.spec_stride(),
    {
        self.stride
    }

    pub fn colorspace(&self) -> (r: Option<&Colorspace>)
        ensures
            match r {
                Some(cs) => (self.spec_colorspace() matches Some(c) && c == *cs),
                None => (self.spec_colorspace() is None),
            },
    {
        self.colorspace.as_ref()
    }

    pub fn samples(&self) -> (r: &[u8])
        ensures
            r@ == self.spec_samples(),
    {
        self.samples.as_slice()
    }

    /// Mutable access to the raw samples. The caller may rewrite bytes in
    /// place; growing or shrinking the vector breaks the pixmap's shape.
    pub fn samples_mut(&mut self) -> (r: &mut Vec<u8>)
        ensures
            (*r)@ == old(self).spec_samples(),
            final(self).spec_samples() == (*final(r))@,
            final(self).spec_width() == old(self).spec_width(),
            final(self).spec_height() == old(self).spec_height(),
            final(self).spec_n() == old(self).spec_n(),
            final(self).spec_alpha() == old(self).spec_alpha(),
            final(self).spec_stride() == old(self).spec_stride(),
            final(self).spec_colorspace() == old(self).spec_colorspace(),
    {
        &mut self.samples
    }

    /// Overwrites every sample with one value.
    pub fn clear(&mut self, value: u8)
        ensures
            final(self).spec_samples() == Seq::new(
                old(self).spec_samples().len(),
                |i: int| value,
            ),
            final(self).wf() == old(self).wf(),
            final(self).spec_width() == old(self).spec_width(),
            final(self).spec_height() == old(self).spec_height(),
            final(self).spec_n() == old(self).spec_n(),
            final(self).spec_alpha() == old(self).spec_alpha(),
            final(self).spec_stride() == old(self).spec_stride(),
            final(self).spec_colorspace() == old(self).spec_colorspace(),
    {
        let len = self.samples.len();
        let mut i: usize = 0;
        while i < len
            invariant
                i <= len,
                len == self.samples@.len(),
                forall|k: int| 0 <= k < i ==> self.samples@[k] == value,
                forall|k: int| i <= k < len ==> self.samples@[k] == old(self).samples@[k],
                self.w == old(self).w,
                self.h == old(self).h,
                self.n == old(self).n,
                self.alpha == old(self).alpha,
                self.stride == old(self).stride,
                self.colorspace == old(self).colorspace,
            decreases len - i,
        {
            self.samples[i] = value;
            i = i + 1;
        }
        proof {
            assert(self.samples@ =~= Seq::new(old(self).samples@.len(), |i: int| value));
        }
    }

    /// The `n` components of the pixel at `(x, y)`, or `None` outside the
    /// pixmap.
    pub fn get_pixel(&self, x: i32, y: i32) -> (r: Option<Vec<u8>>)
        requires
            self.wf(),
        ensures
            (r is Some) == (0 <= x < self.spec_width() && 0 <= y < self.spec_height()),
            (r matches Some(px) ==> px@ == self.spec_samples().subrange(
                y * self.spec_stride() + x * self.spec_n(),
                y * self.spec_stride() + x * self.spec_n() + self.spec_n(),
            )),
    {
        if x < 0 || x >= self.w || y < 0 || y >= self.h {
            return None;
        }
        let total = self.samples.len();
        proof {
            assert((y as int) * (self.spec_stride() as int) + (x as int) * (self.spec_n() as int)
                + (self.spec_n() as int) <= (self.spec_stride() as int) * (
            self.spec_height() as int)) by (nonlinear_arith)
                requires
                    0 <= (x as int) < (self.spec_width() as int),
                    0 <= (y as int) < (self.spec_height() as int),
                    (self.spec_stride() as int) == (self.spec_width() as int) * (
                    self.spec_n() as int),
                    0 <= (self.spec_n() as int),
            ;
            assert(total as int == (self.spec_stride() as int) * (self.spec_height() as int));
        }
        let offset = (y as usize) * self.stride + (x as usize) * (self.n as usize);
        let mut px: Vec<u8> = Vec::new();
        let mut i: usize = 0;
        let n = self.n as usize;
        while i < n
            invariant
                i <= n,
                total == self.samples@.len(),
                offset + n <= total,
                px@ == self.samples@.subrange(offset as int, offset + i),
            decreases n - i,
        {
            px.push(self.samples[offset + i]);
            proof {
                assert(self.samples@.subrange(offset as int, offset + i + 1) =~= self.samples@
                    .subrange(offset as int, offset + i).push(self.samples@[offset + i]));
            }
            i = i + 1;
        }
        Some(px)
    }
}

} // verus!
