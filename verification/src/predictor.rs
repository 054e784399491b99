//! Predictor functions for PDF decode filters: the TIFF horizontal
//! predictor and the five PNG row filters, applied byte-wise after
//! decompression.

use vstd::prelude::*;
use crate::error::Error;

verus! {

/// Decode parameters controlling the predictor step after flate
/// decompression, as a PDF stream dictionary supplies them.
pub struct FlateDecodeParams {
    /// Predictor algorithm: 1 none, 2 TIFF, 10 through 15 PNG.
    pub predictor: i32,
    /// Colour components per pixel.
    pub colors: i32,
    /// Bits per colour component.
    pub bits_per_component: i32,
    /// Pixels per row.
    pub columns: i32,
}

impl Default for FlateDecodeParams {
    /// The PDF defaults: no predictor, one 8-bit component, one column.
    fn default() -> (p: FlateDecodeParams)
        ensures
            p.predictor == 1,
            p.colors == 1,
            p.bits_per_component == 8,
            p.columns == 1,
    {
        FlateDecodeParams { predictor: 1, colors: 1, bits_per_component: 8, columns: 1 }
    }
}

/// Colour count with the parameter floor applied.
pub open spec fn norm_colors(p: FlateDecodeParams) -> int {
    if p.colors > 1 {
        p.colors as int
    } else {
        1
    }
}

/// Bit depth with the parameter floor applied.
pub open spec fn norm_bits(p: FlateDecodeParams) -> int {
    if p.bits_per_component > 8 {
        p.bits_per_component as int
    } else {
        8
    }
}

/// Column count with the parameter floor applied.
pub open spec fn norm_columns(p: FlateDecodeParams) -> int {
    if p.columns > 1 {
        p.columns as int
    } else {
        1
    }
}

/// Bytes per pixel the parameters describe.
pub open spec fn params_bpp(p: FlateDecodeParams) -> int {
    (norm_colors(p) * norm_bits(p) + 7) / 8
}

/// Bytes per row the parameters describe.
pub open spec fn params_bpr(p: FlateDecodeParams) -> int {
    (norm_colors(p) * norm_bits(p) * norm_columns(p) + 7) / 8
}

/// Absolute value.
pub open spec fn iabs(x: int) -> int {
    if x < 0 {
        -x
    } else {
        x
    }
}

/// The Paeth predictor: whichever of left, up and up-left lies closest to
/// `left + up - upleft`, preferring left, then up.
pub open spec fn paeth_spec(a: u8, b: u8, c: u8) -> u8 {
    let p = a + b - c;
    let pa = iabs(p - a);
    let pb = iabs(p - b);
    let pc = iabs(p - c);
    if pa <= pb && pa <= pc {
        a
    } else if pb <= pc {
        b
    } else {
        c
    }
}

/// The Paeth predictor over the left, up and up-left neighbour bytes.
pub fn paeth_predictor(a: u8, b: u8, c: u8) -> (r: u8)
    ensures
        r == paeth_spec(a, b, c),
{
    let ai = a as i32;
    let bi = b as i32;
    let ci = c as i32;
    let p = ai + bi - ci;
    let pa = if p >= ai {
        p - ai
    } else {
        ai - p
    };
    let pb = if p >= bi {
        p - bi
    } else {
        bi - p
    };
    let pc = if p >= ci {
        p - ci
    } else {
        ci - p
    };
    if pa <= pb && pa <= pc {
        a
    } else if pb <= pc {
        b
    } else {
        c
    }
}

/// Byte addition modulo 256, as the predictors reconstruct samples.
pub open spec fn wadd_spec(a: u8, b: u8) -> u8 {
    ((a + b) % 256) as u8
}

fn wadd(a: u8, b: u8) -> (r: u8)
    ensures
        r == wadd_spec(a, b),
{
    (((a as u16) + (b as u16)) % 256) as u8
}

/// The byte `bpp` positions to the left in the decoded row, or 0 at the
/// row's start.
pub open spec fn row_left(d: Seq<u8>, i: int, bpp: int) -> u8 {
    if i >= bpp {
        d[i - bpp]
    } else {
        0
    }
}

/// The byte straight up in the previous row, or 0 without one.
pub open spec fn row_up(prev: Seq<u8>, i: int) -> u8 {
    if i < prev.len() {
        prev[i]
    } else {
        0
    }
}

/// The byte up and `bpp` to the left in the previous row, or 0 without one.
pub open spec fn row_upleft(prev: Seq<u8>, i: int, bpp: int) -> u8 {
    if i >= bpp && i - bpp < prev.len() {
        prev[i - bpp]
    } else {
        0
    }
}

/// One reconstructed byte of a PNG-filtered row, given the decoded prefix
/// `d` of the same row.
pub open spec fn png_byte(ft: u8, row: Seq<u8>, prev: Seq<u8>, bpp: int, d: Seq<u8>, i: int) -> u8 {
    let left = row_left(d, i, bpp);
    let up = row_up(prev, i);
    let ul = row_upleft(prev, i, bpp);
    if ft == 0 {
        row[i]
    } else if ft == 1 {
        wadd_spec(row[i], left)
    } else if ft == 2 {
        wadd_spec(row[i], up)
    } else if ft == 3 {
        wadd_spec(row[i], (((left + up) / 2) as u8))
    } else {
        wadd_spec(row[i], paeth_spec(left, up, ul))
    }
}

/// The first `n` reconstructed bytes of a PNG-filtered row.
pub open spec fn png_row_rec(ft: u8, row: Seq<u8>, prev: Seq<u8>, bpp: int, n: int) -> Seq<u8>
    decreases n,
{
    if n <= 0 {
        Seq::empty()
    } else {
        let d = png_row_rec(ft, row, prev, bpp, n - 1);
        d.push(png_byte(ft, row, prev, bpp, d, n - 1))
    }
}

/// A whole PNG-filtered row, reconstructed.
pub open spec fn png_decoded_row(ft: u8, row: Seq<u8>, prev: Seq<u8>, bpp: int) -> Seq<u8> {
    png_row_rec(ft, row, prev, bpp, row.len() as int)
}

proof fn lemma_png_row_len(ft: u8, row: Seq<u8>, prev: Seq<u8>, bpp: int, n: int)
    ensures
        png_row_rec(ft, row, prev, bpp, n).len() == if n <= 0 {
            0
        } else {
            n
        },
    decreases n,
{
    if n > 0 {
        lemma_png_row_len(ft, row, prev, bpp, n - 1);
    }
}

/// Reconstructs one PNG-filtered row onto the end of `output`, reading the
/// previous row's bytes from `prev_row` (taken as 0 beyond its end) and the
/// current row's earlier bytes from what this call has already decoded.
/// A filter type above 4 is rejected and leaves `output` untouched.
pub fn decode_png_filter(
    filter_type: u8,
    row: &[u8],
    prev_row: &[u8],
    bytes_per_pixel: usize,
    output: &mut Vec<u8>,
) -> (r: Result<(), Error>)
    requires
        bytes_per_pixel >= 1,
    ensures
        filter_type <= 4 ==> (r is Ok) && final(output)@ == old(output)@ + png_decoded_row(
            filter_type,
            row@,
            prev_row@,
            bytes_per_pixel as int,
        ),
        filter_type > 4 ==> (r matches Err(e) && e matches Error::Generic(_)) && final(output)@
            == old(output)@,
    {
    if filter_type > 4 {
        return Err(Error::generic("Unknown PNG filter type"));
    }
    let ghost base = output@;
    let ghost bpp = bytes_per_pixel as int;
    let n = row.len();
    let base_len = output.len();
    let mut i: usize = 0;
    proof {
        assert(output@ =~= base + png_row_rec(filter_type, row@, prev_row@, bpp, 0));
    }
    while i < n
        invariant
            i <= n,
            n == row@.len(),
            bpp == bytes_per_pixel as int,
            bytes_per_pixel >= 1,
            filter_type <= 4,
            base_len == base.len(),
            output@ == base + png_row_rec(filter_type, row@, prev_row@, bpp, i as int),
            output@.len() == base_len + i,
        decreases n - i,
    {
        let ghost d = png_row_rec(filter_type, row@, prev_row@, bpp, i as int);
        let cur = row[i];
        let left: u8 = if i >= bytes_per_pixel {
            let cur_len = output.len();
            let v = output[cur_len - bytes_per_pixel];
            proof {
                assert(output@[cur_len - bytes_per_pixel] == d[i - bpp]);
            }
            v
        } else {
            0
        };
        let up: u8 = if i < prev_row.len() {
            prev_row[i]
        } else {
            0
        };
        let ul: u8 = if i >= bytes_per_pixel && i - bytes_per_pixel < prev_row.len() {
            prev_row[i - bytes_per_pixel]
        } else {
            0
        };
        proof {
            assert(left == row_left(d, i as int, bpp));
            assert(up == row_up(prev_row@, i as int));
            assert(ul == row_upleft(prev_row@, i as int, bpp));
        }
        let v: u8 = if filter_type == 0 {
            cur
        } else if filter_type == 1 {
            wadd(cur, left)
        } else if filter_type == 2 {
            wadd(cur, up)
        } else if filter_type == 3 {
            let avg = (((left as u16) + (up as u16)) / 2) as u8;
            wadd(cur, avg)
        } else {
            wadd(cur, paeth_predictor(left, up, ul))
        };
        output.push(v);
        proof {
            assert(v == png_byte(filter_type, row@, prev_row@, bpp, d, i as int));
            assert(png_row_rec(filter_type, row@, prev_row@, bpp, i + 1) == d.push(v));
            assert(output@ =~= base + png_row_rec(filter_type, row@, prev_row@, bpp, i + 1));
        }
        i = i + 1;
    }
    proof {
        assert(output@ =~= base + png_decoded_row(filter_type, row@, prev_row@, bpp));
    }
    Ok(())
}

/// A row slice padded with zero bytes up to the full row width.
pub open spec fn pad_row(s: Seq<u8>, n: int) -> Seq<u8> {
    if s.len() >= n {
        s.subrange(0, n)
    } else {
        s + Seq::new((n - s.len()) as nat, |i: int| 0u8)
    }
}

/// A row of zero bytes, standing above the first row.
pub open spec fn zero_row(n: int) -> Seq<u8> {
    Seq::new(if n <= 0 {
        0nat
    } else {
        n as nat
    }, |i: int| 0u8)
}

/// Glues a decoded prefix onto what the remaining chunks decode to, where
/// they decode at all.
pub open spec fn glue(done: Seq<u8>, rest: Option<Seq<u8>>) -> Option<Seq<u8>> {
    match rest {
        Some(r) => Some(done + r),
        None => None,
    }
}

/// What PNG-predicted data decodes to: each `bpr + 1`-byte chunk carries a
/// filter-type byte and one (possibly short, zero-padded) row, each row
/// predicted against the previous decoded row. `None` when a chunk carries
/// an unknown filter type.
pub open spec fn png_all_rec(data: Seq<u8>, bpr: int, bpp: int, prev: Seq<u8>) -> Option<Seq<u8>>
    decreases data.len(),
{
    if data.len() == 0 {
        Some(Seq::empty())
    } else {
        let csize: int = if bpr < 1 {
            1
        } else if data.len() < bpr + 1 {
            data.len() as int
        } else {
            bpr + 1
        };
        let ft = data[0];
        if ft > 4 {
            None
        } else {
            let row = pad_row(data.subrange(1, csize), bpr);
            let dec = png_row_rec(ft, row, prev, bpp, bpr);
            glue(dec, png_all_rec(data.subrange(csize, data.len() as int), bpr, bpp, dec))
        }
    }
}

/// What TIFF-predicted data decodes to: each row of up to `bpr` bytes is
/// reconstructed by horizontal differencing, rows independent of each
/// other. Horizontal differencing is exactly the PNG "sub" filter.
pub open spec fn tiff_rows_rec(data: Seq<u8>, bpr: int, bpp: int) -> Seq<u8>
    decreases data.len(),
{
    if data.len() == 0 {
        Seq::empty()
    } else {
        let csize: int = if bpr < 1 {
            1
        } else if data.len() < bpr {
            data.len() as int
        } else {
            bpr
        };
        let row = data.subrange(0, csize);
        png_row_rec(1u8, row, Seq::empty(), bpp, csize) + tiff_rows_rec(
            data.subrange(csize, data.len() as int),
            bpr,
            bpp,
        )
    }
}

/// Applies the TIFF predictor (horizontal differencing) in decode
/// direction: each row's bytes are cumulative sums at pixel distance.
pub fn apply_tiff_predictor_decode(data: &[u8], bytes_per_row: usize, bytes_per_pixel: usize) -> (r:
    Result<Vec<u8>, Error>)
    requires
        bytes_per_row >= 1,
        bytes_per_pixel >= 1,
    ensures
        (r matches Ok(v) && v@ == tiff_rows_rec(data@, bytes_per_row as int, bytes_per_pixel as int)),
{
    let ghost bpr = bytes_per_row as int;
    let ghost bpp = bytes_per_pixel as int;
    let mut out: Vec<u8> = Vec::new();
    let prev: Vec<u8> = Vec::new();
    let mut off: usize = 0;
    proof {
        assert(out@ + tiff_rows_rec(data@.subrange(0, data@.len() as int), bpr, bpp)
            =~= tiff_rows_rec(data@, bpr, bpp)) by {
            assert(data@.subrange(0, data@.len() as int) =~= data@);
        }
    }
    while off < data.len()
        invariant
            off <= data@.len(),
            bpr == bytes_per_row as int,
            bpp == bytes_per_pixel as int,
            bytes_per_row >= 1,
            bytes_per_pixel >= 1,
            prev@.len() == 0,
            tiff_rows_rec(data@, bpr, bpp) == out@ + tiff_rows_rec(
                data@.subrange(off as int, data@.len() as int),
                bpr,
                bpp,
            ),
        decreases data@.len() - off,
    {
        let remaining = data.len() - off;
        let csize = if bytes_per_row < remaining {
            bytes_per_row
        } else {
            remaining
        };
        let ghost tail = data@.subrange(off as int, data@.len() as int);
        let mut rowv: Vec<u8> = Vec::new();
        let mut k: usize = 0;
        while k < csize
            invariant
                k <= csize,
                off + csize <= data@.len(),
                data@.len() <= usize::MAX,
                rowv@ == data@.subrange(off as int, off + k),
            decreases csize - k,
        {
            rowv.push(data[off + k]);
            proof {
                assert(data@.subrange(off as int, off + k + 1) =~= data@.subrange(
                    off as int,
                    off + k,
                ).push(data@[off + k]));
            }
            k = k + 1;
        }
        let mut rowdec: Vec<u8> = Vec::new();
        let _ = decode_png_filter(1, rowv.as_slice(), prev.as_slice(), bytes_per_pixel,
            &mut rowdec);
        let ghost out0 = out@;
        out.append(&mut rowdec);
        off = off + csize;
        proof {
            assert(tail.len() == remaining);
            assert(tail.subrange(0, csize as int) =~= data@.subrange(
                off - csize,
                off as int,
            ));
            assert(tail.subrange(csize as int, tail.len() as int) =~= data@.subrange(
                off as int,
                data@.len() as int,
            ));
            let dec = png_row_rec(1u8, tail.subrange(0, csize as int), Seq::empty(), bpp,
                csize as int);
            assert(prev@ =~= Seq::<u8>::empty());
            assert(tiff_rows_rec(tail, bpr, bpp) == dec + tiff_rows_rec(
                tail.subrange(csize as int, tail.len() as int),
                bpr,
                bpp,
            ));
            let rest = tiff_rows_rec(data@.subrange(off as int, data@.len() as int), bpr, bpp);
            assert((out0 + dec) + rest =~= out0 + (dec + rest));
        }
    }
    proof {
        assert(data@.subrange(data@.len() as int, data@.len() as int) =~= Seq::<u8>::empty());
        assert(out@ + Seq::<u8>::empty() =~= out@);
    }
    Ok(out)
}

/// Applies the PNG predictor in decode direction: each chunk of
/// `bytes_per_row + 1` bytes carries a filter-type byte and one filtered
/// row, reconstructed against the previous decoded row. A chunk with an
/// unknown filter type fails the whole decode.
pub fn apply_png_predictor_decode(data: &[u8], bytes_per_row: usize, bytes_per_pixel: usize) -> (r:
    Result<Vec<u8>, Error>)
    requires
        bytes_per_pixel >= 1,
        bytes_per_row < usize::MAX,
    ensures
        ((r is Ok) == (png_all_rec(
            data@,
            bytes_per_row as int,
            bytes_per_pixel as int,
            zero_row(bytes_per_row as int),
        ) is Some)),
        (r matches Ok(v) ==> Some(v@) == png_all_rec(
            data@,
            bytes_per_row as int,
            bytes_per_pixel as int,
            zero_row(bytes_per_row as int),
        )),
        (r matches Err(e) ==> e matches Error::Generic(_)),
{
    let ghost bpr = bytes_per_row as int;
    let ghost bpp = bytes_per_pixel as int;
    let ghost full = png_all_rec(data@, bpr, bpp, zero_row(bpr));
    let mut out: Vec<u8> = Vec::new();
    let mut prev: Vec<u8> = Vec::new();
    let mut z: usize = 0;
    while z < bytes_per_row
        invariant
            z <= bytes_per_row,
            prev@ == Seq::new(z as nat, |i: int| 0u8),
        decreases bytes_per_row - z,
    {
        prev.push(0);
        proof {
            assert(prev@ =~= Seq::new((z + 1) as nat, |i: int| 0u8));
        }
        z = z + 1;
    }
    proof {
        assert(prev@ =~= zero_row(bpr));
        assert(data@.subrange(0, data@.len() as int) =~= data@);
    }
    let mut off: usize = 0;
    while off < data.len()
        invariant
            off <= data@.len(),
            bpr == bytes_per_row as int,
            bpp == bytes_per_pixel as int,
            bytes_per_pixel >= 1,
            bytes_per_row < usize::MAX,
            full == png_all_rec(data@, bpr, bpp, zero_row(bpr)),
            full == glue(
                out@,
                png_all_rec(data@.subrange(off as int, data@.len() as int), bpr, bpp, prev@),
            ),
        decreases data@.len() - off,
    {
        let remaining = data.len() - off;
        let csize = if bytes_per_row + 1 < remaining {
            bytes_per_row + 1
        } else {
            remaining
        };
        let ghost tail = data@.subrange(off as int, data@.len() as int);
        proof {
            assert(tail[0] == data@[off as int]);
        }
        let ft = data[off];
        if ft > 4 {
            proof {
                assert(png_all_rec(tail, bpr, bpp, prev@) is None);
            }
            return Err(Error::generic("Unknown PNG filter type"));
        }
        let mut rowv: Vec<u8> = Vec::new();
        let mut k: usize = 1;
        while k < csize
            invariant
                1 <= k <= csize,
                off + csize <= data@.len(),
                data@.len() <= usize::MAX,
                rowv@ == data@.subrange(off + 1, off + k),
            decreases csize - k,
        {
            rowv.push(data[off + k]);
            proof {
                assert(data@.subrange(off + 1, off + k + 1) =~= data@.subrange(
                    off + 1,
                    off + k,
                ).push(data@[off + k]));
            }
            k = k + 1;
        }
        let short = csize - 1;
        while rowv.len() < bytes_per_row
            invariant
                short <= rowv@.len() <= bytes_per_row,
                rowv@.subrange(0, short as int) == data@.subrange(off + 1, off + csize),
                short == csize - 1,
                off + csize <= data@.len(),
                forall|t: int| short <= t < rowv@.len() ==> rowv@[t] == 0,
            decreases bytes_per_row - rowv@.len(),
        {
            rowv.push(0);
            proof {
                assert(rowv@.subrange(0, short as int) =~= rowv@.drop_last().subrange(
                    0,
                    short as int,
                ));
            }
        }
        proof {
            let srow = tail.subrange(1, csize as int);
            assert(srow =~= data@.subrange(off + 1, off + csize));
            let padded = pad_row(srow, bpr);
            if srow.len() >= bpr {
                assert(srow.subrange(0, bpr) =~= srow);
                assert(rowv@.subrange(0, short as int) =~= rowv@);
                assert(rowv@ =~= padded);
            } else {
                assert forall|t: int| 0 <= t < bpr implies rowv@[t] == padded[t] by {
                    if t < short {
                        assert(padded[t] == srow[t]);
                    } else {
                        assert(padded[t] == 0);
                    }
                }
                assert(rowv@ =~= padded);
            }
        }
        let ghost prev0 = prev@;
        let mut rowdec: Vec<u8> = Vec::new();
        let _ = decode_png_filter(ft, rowv.as_slice(), prev.as_slice(), bytes_per_pixel,
            &mut rowdec);
        proof {
            assert(rowdec@ =~= png_row_rec(
                ft,
                pad_row(tail.subrange(1, csize as int), bpr),
                prev0,
                bpp,
                bpr,
            )) by {
                assert(Seq::<u8>::empty() + png_decoded_row(ft, rowv@, prev0, bpp)
                    =~= png_decoded_row(ft, rowv@, prev0, bpp));
                lemma_png_row_len(ft, rowv@, prev0, bpp, bpr);
                assert(rowv@.len() == bpr);
            }
        }
        prev = crate::buffer::copy_bytes(rowdec.as_slice());
        let ghost out0 = out@;
        out.append(&mut rowdec);
        off = off + csize;
        proof {
            let dec = png_row_rec(ft, pad_row(tail.subrange(1, csize as int), bpr), prev0, bpp,
                bpr);
            assert(tail.subrange(csize as int, tail.len() as int) =~= data@.subrange(
                off as int,
                data@.len() as int,
            ));
            assert(png_all_rec(tail, bpr, bpp, prev0) == glue(
                dec,
                png_all_rec(data@.subrange(off as int, data@.len() as int), bpr, bpp, dec),
            ));
            let rest = png_all_rec(data@.subrange(off as int, data@.len() as int), bpr, bpp, dec);
            if rest is Some {
                let rr = rest.unwrap();
                assert((out0 + dec) + rr =~= out0 + (dec + rr));
            }
        }
    }
    proof {
        assert(data@.subrange(data@.len() as int, data@.len() as int) =~= Seq::<u8>::empty());
        assert(out@ + Seq::<u8>::empty() =~= out@);
    }
    Ok(out)
}

/// Chooses and applies the predictor the parameters call for: none, TIFF
/// horizontal differencing, or the PNG row filters; any other predictor
/// value is unsupported.
pub fn apply_predictor_decode(data: &[u8], params: &FlateDecodeParams) -> (r: Result<
    Vec<u8>,
    Error,
>)
    requires
        params_bpr(*params) <= usize::MAX - 1,
    ensures
        params.predictor == 1 ==> (r matches Ok(v) && v@ == data@),
        params.predictor == 2 ==> (r matches Ok(v) && v@ == tiff_rows_rec(
            data@,
            params_bpr(*params),
            params_bpp(*params),
        )),
        10 <= params.predictor <= 15 ==> {
            &&& ((r is Ok) == (png_all_rec(
                data@,
                params_bpr(*params),
                params_bpp(*params),
                zero_row(params_bpr(*params)),
            ) is Some))
            &&& (r matches Ok(v) ==> Some(v@) == png_all_rec(
                data@,
                params_bpr(*params),
                params_bpp(*params),
                zero_row(params_bpr(*params)),
            ))
        },
        !(params.predictor == 1 || params.predictor == 2 || 10 <= params.predictor <= 15) ==> (
        r matches Err(e) && e matches Error::Generic(_)),
    {
    let colors: u64 = if params.colors > 1 {
        params.colors as u64
    } else {
        1
    };
    let bits: u64 = if params.bits_per_component > 8 {
        params.bits_per_component as u64
    } else {
        8
    };
    let columns: u64 = if params.columns > 1 {
        params.columns as u64
    } else {
        1
    };
    proof {
        assert((colors as int) * (bits as int) <= (i32::MAX as int) * (i32::MAX as int))
            by (nonlinear_arith)
            requires
                1 <= colors <= i32::MAX,
                8 <= bits <= i32::MAX,
        ;
        assert(8 <= (colors as int) * (bits as int)) by (nonlinear_arith)
            requires
                1 <= colors,
                8 <= bits,
        ;
    }
    let cb: u64 = colors * bits;
    let bpp64: u64 = (cb + 7) / 8;
    proof {
        assert((cb as int) * (columns as int) <= ((u64::MAX as int)) * ((i32::MAX as int)))
            by (nonlinear_arith)
            requires
                0 <= cb <= u64::MAX,
                1 <= columns <= i32::MAX,
        ;
        assert((cb as int) <= (cb as int) * (columns as int)) by (nonlinear_arith)
            requires
                0 <= cb,
                1 <= columns,
        ;
    }
    let cbc: u128 = (cb as u128) * (columns as u128);
    let bpr128: u128 = (cbc + 7) / 8;
    proof {
        assert(bpr128 == params_bpr(*params));
        assert(bpp64 == params_bpp(*params));
        assert(bpp64 <= bpr128);
        assert(bpp64 >= 1);
        assert(bpr128 >= 1);
    }
    let bpp: usize = bpp64 as usize;
    let bpr: usize = bpr128 as usize;
    if params.predictor == 1 {
        Ok(crate::buffer::copy_bytes(data))
    } else if params.predictor == 2 {
        apply_tiff_predictor_decode(data, bpr, bpp)
    } else if 10 <= params.predictor && params.predictor <= 15 {
        apply_png_predictor_decode(data, bpr, bpp)
    } else {
        Err(Error::generic("Unsupported predictor"))
    }
}

} // verus!
