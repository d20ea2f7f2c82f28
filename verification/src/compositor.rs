//! Frame compositing: copy the pixel rows of a source buffer into a
//! destination buffer, honouring each buffer's stride. Pixels are a fixed
//! packed 4-byte format; bytes pass through unmodified.

use vstd::prelude::*;

verus! {

/// A raw frame as handed over by the capture collaborator: pixel bytes
/// plus the row stride in bytes. Rows hold 4 bytes per pixel; the stride
/// may exceed the logical row width for alignment.
pub struct SourceFrame {
    pub data: Vec<u8>,
    pub width: usize,
    pub height: usize,
    pub stride: usize,
}

/// Whether a source frame can supply a `width` by `height` pixel area:
/// each of the first `height` rows, laid out `stride` bytes apart, holds
/// at least `4 * width` bytes.
pub open spec fn source_fits(f: &SourceFrame, width: int, height: int) -> bool {
    &&& f.stride >= 4 * width
    &&& (f.height as int) >= height
    &&& f.data@.len() >= (height - 1) * (f.stride as int) + 4 * width
}

/// A byte position that row-major copying of `r` full rows plus `c` bytes
/// of the next row has written, for rows `stride` bytes apart and rows
/// `w4` bytes long.
spec fn written(i: int, r: int, c: int, w4: int, stride: int) -> bool {
    exists|rr: int, kk: int|
        #![trigger rr * stride + kk]
        0 <= rr && 0 <= kk < w4 && (rr < r || (rr == r && kk < c)) && i == rr * stride + kk
}

proof fn lemma_written_unique(i: int, r: int, c: int, w4: int, stride: int, rr: int, kk: int)
    requires
        0 < w4 <= stride,
        0 <= rr,
        0 <= kk < w4,
        i == rr * stride + kk,
    ensures
        i / stride == rr,
        i % stride == kk,
{
    vstd::arithmetic::div_mod::lemma_fundamental_div_mod_converse(i, stride, rr, kk);
}

/// Copy the top-left `width` by `height` pixel area of `src` into `dst`,
/// row by row.
///
/// Each row moves exactly `4 * width` bytes: copying never reads past a
/// source row's logical width nor writes past a destination row's logical
/// width, and every destination byte outside the written area — padding
/// included — keeps its old value.
pub fn composite_into(
    dst: &mut Vec<u8>,
    dst_stride: usize,
    src: &[u8],
    src_stride: usize,
    width: usize,
    height: usize,
)
    requires
        width > 0,
        height > 0,
        4 * width <= dst_stride,
        4 * width <= src_stride,
        (height - 1) * (src_stride as int) + 4 * width <= src@.len(),
        (height - 1) * (dst_stride as int) + 4 * width <= old(dst)@.len(),
    ensures
        final(dst)@.len() == old(dst)@.len(),
        forall|r: int, k: int|
            #![trigger r * (dst_stride as int) + k]
            0 <= r < height && 0 <= k < 4 * width ==> final(dst)@[r * (dst_stride as int) + k]
                == src@[r * (src_stride as int) + k],
        forall|i: int|
            0 <= i < old(dst)@.len() && (i / (dst_stride as int) >= height
                || i % (dst_stride as int) >= 4 * width) ==> final(dst)@[i] == old(dst)@[i],
{
    let w4 = 4 * width;
    let dst_len = dst.len();
    let src_len = src.len();
    let ghost ds = dst_stride as int;
    let ghost ss = src_stride as int;
    let mut r: usize = 0;
    while r < height
        invariant
            0 <= r <= height,
            w4 == 4 * width,
            0 < w4 <= dst_stride,
            w4 <= src_stride,
            ds == dst_stride as int,
            ss == src_stride as int,
            (height - 1) * ss + w4 <= src@.len(),
            (height - 1) * ds + w4 <= old(dst)@.len(),
            dst_len == old(dst)@.len(),
            src_len == src@.len(),
            dst@.len() == old(dst)@.len(),
            forall|rr: int, k: int|
                #![trigger rr * ds + k]
                0 <= rr < r && 0 <= k < w4 ==> dst@[rr * ds + k] == src@[rr * ss + k],
            forall|i: int|
                0 <= i < dst@.len() && !written(i, r as int, 0, w4 as int, ds) ==> dst@[i] == old(
                    dst,
                )@[i],
        decreases height - r,
    {
        proof {
            assert(r * ds <= (height - 1) * ds) by {
                vstd::arithmetic::mul::lemma_mul_inequality(r as int, height - 1, ds);
            }
            assert(r * ss <= (height - 1) * ss) by {
                vstd::arithmetic::mul::lemma_mul_inequality(r as int, height - 1, ss);
            }
        }
        let dst_row = r * dst_stride;
        let src_row = r * src_stride;
        let mut c: usize = 0;
        while c < w4
            invariant
                0 <= c <= w4,
                0 <= r < height,
                w4 == 4 * width,
                0 < w4 <= dst_stride,
                w4 <= src_stride,
                ds == dst_stride as int,
                ss == src_stride as int,
                dst_row == r * ds,
                src_row == r * ss,
                (height - 1) * ss + w4 <= src@.len(),
                (height - 1) * ds + w4 <= old(dst)@.len(),
                r * ds <= (height - 1) * ds,
                r * ss <= (height - 1) * ss,
                dst_len == old(dst)@.len(),
                src_len == src@.len(),
                dst@.len() == old(dst)@.len(),
                forall|rr: int, k: int|
                    #![trigger rr * ds + k]
                    0 <= rr < r && 0 <= k < w4 ==> dst@[rr * ds + k] == src@[rr * ss + k],
                forall|k: int|
                    #![trigger (r as int) * ds + k]
                    0 <= k < c ==> dst@[r * ds + k] == src@[r * ss + k],
                forall|i: int|
                    0 <= i < dst@.len() && !written(i, r as int, c as int, w4 as int, ds)
                        ==> dst@[i] == old(dst)@[i],
            decreases w4 - c,
        {
            let di = dst_row + c;
            let si = src_row + c;
            let ghost prev = dst@;
            let b = src[si];
            dst.set(di, b);
            proof {
                // the byte just written is inside the written area
                assert(written(di as int, r as int, c as int + 1, w4 as int, ds)) by {
                    assert(di as int == (r as int) * ds + (c as int));
                }
                // previously written bytes are untouched: their index differs
                assert forall|rr: int, k: int|
                    #![trigger rr * ds + k]
                    0 <= rr < r && 0 <= k < w4 implies dst@[rr * ds + k] == src@[rr * ss + k] by {
                    vstd::arithmetic::mul::lemma_mul_inequality(rr, height - 1, ds);
                    vstd::arithmetic::mul::lemma_mul_inequality(rr, height - 1, ss);
                    if rr * ds + k == di as int {
                        lemma_written_unique(di as int, r as int, c as int, w4 as int, ds, rr, k);
                        lemma_written_unique(
                            di as int,
                            r as int,
                            c as int,
                            w4 as int,
                            ds,
                            r as int,
                            c as int,
                        );
                        assert(false);
                    } else {
                        assert(dst@[rr * ds + k] == prev[rr * ds + k]);
                    }
                }
                assert forall|k: int|
                    #![trigger (r as int) * ds + k]
                    0 <= k < c + 1 implies dst@[(r as int) * ds + k] == src@[(r as int) * ss
                    + k] by {
                    if k < c {
                        if (r as int) * ds + k == di as int {
                            lemma_written_unique(
                                di as int,
                                r as int,
                                c as int,
                                w4 as int,
                                ds,
                                r as int,
                                k,
                            );
                            lemma_written_unique(
                                di as int,
                                r as int,
                                c as int,
                                w4 as int,
                                ds,
                                r as int,
                                c as int,
                            );
                            assert(false);
                        } else {
                            assert(dst@[(r as int) * ds + k] == prev[(r as int) * ds + k]);
                        }
                    }
                }
                // bytes outside the enlarged written area keep their former value
                assert forall|i: int|
                    0 <= i < dst@.len() && !written(i, r as int, c as int + 1, w4 as int, ds)
                        implies dst@[i] == old(dst)@[i] by {
                    assert(!written(i, r as int, c as int, w4 as int, ds));
                    assert(i != di as int);
                    assert(dst@[i] == prev[i]);
                }
            }
            c = c + 1;
        }
        proof {
            // a full row extends the written area to the next row boundary
            assert forall|i: int|
                0 <= i < dst@.len() && !written(i, r as int + 1, 0, w4 as int, ds) implies !written(
                i,
                r as int,
                w4 as int,
                w4 as int,
                ds,
            ) by {
                if written(i, r as int, w4 as int, w4 as int, ds) {
                    let (rr, kk) = choose|rr: int, kk: int|
                        #![trigger rr * ds + kk]
                        0 <= rr && 0 <= kk < w4 && (rr < r || (rr == r && kk < w4)) && i == rr * ds
                            + kk;
                    assert(rr < r as int + 1);
                    assert(written(i, r as int + 1, 0, w4 as int, ds));
                }
            }
        }
        r = r + 1;
    }
    proof {
        assert forall|i: int|
            0 <= i < dst@.len() && (i / ds >= height || i % ds >= 4 * width) implies dst@[i] == old(
            dst,
        )@[i] by {
            if written(i, height as int, 0, w4 as int, ds) {
                let (rr, kk) = choose|rr: int, kk: int|
                    #![trigger rr * ds + kk]
                    0 <= rr && 0 <= kk < w4 && (rr < height || (rr == height && kk < 0)) && i == rr
                        * ds + kk;
                lemma_written_unique(i, height as int, 0, w4 as int, ds, rr, kk);
            }
        }
    }
}

} // verus!
