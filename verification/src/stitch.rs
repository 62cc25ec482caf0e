//! Stitching: merging an ordered list of equal-sized frames into one tall
//! composite by cutting each seam at the middle of the overlap band.

use vstd::prelude::*;

use crate::errors::CaptureError;
use crate::raster::{Raster, RasterView};
use crate::ScreenCapture;

verus! {

/// The views of a list of rasters, in order.
pub open spec fn views(s: Seq<Raster>) -> Seq<RasterView> {
    s.map_values(|r: Raster| r@)
}

/// Every frame is well formed.
pub open spec fn frames_wf(fs: Seq<RasterView>) -> bool {
    forall|i: int| 0 <= i < fs.len() ==> (#[trigger] fs[i]).wf()
}

/// Every frame has the dimensions of the first.
pub open spec fn equal_dims(fs: Seq<RasterView>) -> bool {
    forall|i: int|
        0 <= i < fs.len() ==> (#[trigger] fs[i]).width == fs[0].width && fs[i].height
            == fs[0].height
}

/// Height of the composite of `n` frames of height `h` with overlap `o`:
/// the first frame contributes all of `h`, each later one `h − o` new rows.
pub open spec fn stitched_height(n: int, h: int, o: int) -> int {
    h + (n - 1) * (h - o)
}

/// The frame whose pixels stand at output row `yy` once all frames are
/// written in order. Frame 0 copies all of its rows at offset 0; each later
/// frame `i` copies its source rows [o/2, h) to output rows
/// [i·(h−o) + o/2, i·(h−o) + h), overwriting what stood there. The last
/// writer wins, so it is the highest `i` whose copied range reaches `yy`.
pub open spec fn winner(n: int, s: int, half: int, yy: int) -> int
    decreases n,
{
    if n <= 1 {
        0
    } else if (n - 1) * s + half <= yy {
        n - 1
    } else {
        winner(n - 1, s, half, yy)
    }
}

/// Output rows settled once the first `i` frames are written: frame `i − 1`
/// reaches down to row (i−1)·s + h, exclusive.
spec fn covered(i: int, s: int, h: int) -> int {
    if i <= 0 {
        0
    } else {
        (i - 1) * s + h
    }
}

/// What the stitcher guarantees of its output for a non-empty frame list of
/// equal dimensions: the height formula, and every output pixel taken from
/// the frame the seam rule assigns to its row.
pub open spec fn stitch_post(fs: Seq<RasterView>, o: nat, out: RasterView) -> bool {
    let n = fs.len() as int;
    let w = fs[0].width as int;
    let h = fs[0].height as int;
    let s = h - o;
    let half = o as int / 2;
    &&& out.wf()
    &&& out.width == w
    &&& out.height == stitched_height(n, h, o as int)
    &&& forall|x: int, yy: int|
        0 <= x < w && 0 <= yy < out.height ==> out.pix(x, yy) == fs[winner(n, s, half, yy)].pix(
            x,
            yy - winner(n, s, half, yy) * s,
        )
}

/// Below the range a newly written frame touches, the winning frame is
/// unchanged.
proof fn lemma_winner_freeze(n: int, s: int, half: int, yy: int)
    requires
        n >= 2,
        yy < (n - 1) * s + half,
    ensures
        winner(n, s, half, yy) == winner(n - 1, s, half, yy),
{
}

/// Within the range the newest frame writes, it is the winner.
proof fn lemma_winner_top(n: int, s: int, half: int, yy: int)
    requires
        n >= 1,
        n >= 2 ==> (n - 1) * s + half <= yy,
    ensures
        winner(n, s, half, yy) == n - 1,
{
}

impl ScreenCapture {
    /// Merge an ordered list of frames into one composite. All frames must
    /// share the dimensions of the first: anything else is answered with
    /// `FrameSizeMismatch` and no output. An empty list yields the defined
    /// minimal output, a zeroed 1×1 raster; a single frame comes back
    /// unchanged regardless of the overlap value. Otherwise the output is
    /// `first.height + (n−1)·(first.height − overlap)` rows tall, frame 0
    /// is copied whole, and each later frame `i` contributes its rows
    /// [overlap/2, height) at offset i·(height − overlap): each seam is cut
    /// at the middle of the overlap band, so each side of the seam comes
    /// from the frame whose fresh content lies nearer.
    pub fn stitch_images(&self, images: Vec<Raster>, overlap: u32) -> (r: Result<
        Raster,
        CaptureError,
    >)
        requires
            frames_wf(views(images@)),
            images@.len() >= 2 ==> overlap as nat <= views(images@)[0].height,
            images@.len() >= 2 ==> stitched_height(
                images@.len() as int,
                views(images@)[0].height as int,
                overlap as int,
            ) <= u32::MAX as int,
            images@.len() >= 2 ==> views(images@)[0].width as int * stitched_height(
                images@.len() as int,
                views(images@)[0].height as int,
                overlap as int,
            ) * 4 <= usize::MAX as int,
        ensures
            r is Ok <==> (images@.len() == 0 || equal_dims(views(images@))),
            match r {
                Ok(out) => {
                    &&& out@.wf()
                    &&& (images@.len() == 0 ==> out@.width == 1 && out@.height == 1 && (forall|
                        k: int,
                    | 0 <= k < out@.data.len() ==> out@.data[k] == 0u8))
                    &&& (images@.len() > 0 ==> stitch_post(views(images@), overlap as nat, out@))
                },
                Err(e) => e == CaptureError::FrameSizeMismatch,
            },
    {
        let ghost fsv = views(images@);
        let n = images.len();
        if n == 0 {
            return Ok(Raster::new(1, 1));
        }
        let w = images[0].width();
        let h = images[0].height();
        proof {
            assert(fsv[0] == images@[0]@);
        }

        let mut i: usize = 1;
        while i < n
            invariant
                fsv == views(images@),
                n == images@.len(),
                1 <= i <= n,
                w as nat == fsv[0].width,
                h as nat == fsv[0].height,
                forall|j: int|
                    0 <= j < i ==> (#[trigger] fsv[j]).width == fsv[0].width && fsv[j].height
                        == fsv[0].height,
            decreases n - i,
        {
            proof {
                assert(fsv[i as int] == images@[i as int]@);
            }
            if images[i].width() != w || images[i].height() != h {
                proof {
                    assert(!equal_dims(fsv));
                }
                return Err(CaptureError::FrameSizeMismatch);
            }
            i = i + 1;
        }
        assert(equal_dims(fsv));

        if n == 1 {
            // A lone frame comes back unchanged, whatever the overlap value:
            // there is no seam to cut and no second frame to place.
            let out = images[0].dup();
            proof {
                let hh = h as int;
                let oo = overlap as int;
                let ss = hh - oo;
                let hf = oo / 2;
                assert(out@ == fsv[0]);
                assert(out@.height == fsv[0].height);
                assert(fsv[0].height == h as nat);
                assert(0 * (hh - oo) == 0) by (nonlinear_arith);
                assert(stitched_height(1, hh, oo) == hh + 0 * (hh - oo));
                assert(out@.height == stitched_height(1, hh, oo));
                assert forall|x: int, yy: int|
                    0 <= x < out@.width && 0 <= yy < out@.height implies out@.pix(x, yy)
                    == fsv[winner(1, ss, hf, yy)].pix(x, yy - winner(1, ss, hf, yy) * ss) by {
                    assert(winner(1, ss, hf, yy) == 0);
                }
                assert(stitch_post(fsv, overlap as nat, out@));
            }
            return Ok(out);
        }

        let ghost nn = n as int;
        let ghost hh = h as int;
        let ghost oo = overlap as int;
        let ghost ss = hh - oo;
        let ghost hf = oo / 2;

        let step: u32 = h - overlap;
        proof {
            vstd::arithmetic::mul::lemma_mul_inequality(0, nn - 1, ss);
        }
        let ext64: u64 = ((n - 1) as u64) * (step as u64);
        let total_height: u32 = h + (ext64 as u32);
        let mut out = Raster::new(w, total_height);

        let mut i: usize = 0;
        while i < n
            invariant
                fsv == views(images@),
                frames_wf(fsv),
                equal_dims(fsv),
                n == images@.len(),
                n >= 1,
                0 <= i <= n,
                w as nat == fsv[0].width,
                h as nat == fsv[0].height,
                nn == n as int,
                hh == h as int,
                oo == overlap as int,
                oo <= hh,
                ss == hh - oo,
                hf == oo / 2,
                step as int == ss,
                total_height as int == stitched_height(nn, hh, oo),
                out@.wf(),
                out@.width == w as nat,
                out@.height == total_height as nat,
                forall|x2: int, yy: int|
                    0 <= x2 < w && 0 <= yy < covered(i as int, ss, hh) ==> out@.pix(x2, yy)
                        == fsv[winner(i as int, ss, hf, yy)].pix(
                        x2,
                        yy - winner(i as int, ss, hf, yy) * ss,
                    ),
            decreases n - i,
        {
            proof {
                vstd::arithmetic::mul::lemma_mul_inequality(i as int, nn - 1, ss);
                vstd::arithmetic::mul::lemma_mul_inequality(0, i as int, ss);
                assert(fsv[i as int] == images@[i as int]@);
                if i > 0 {
                    assert((i as int - 1) * ss + hh == i as int * ss + oo) by (nonlinear_arith)
                        requires
                            ss == hh - oo,
                    ;
                }
            }
            let y_offset64: u64 = (i as u64) * (step as u64);
            let y_offset: u32 = y_offset64 as u32;
            let lo: u32 = if i == 0 {
                0
            } else {
                overlap / 2
            };
            let ghost lo_row = y_offset as int + lo as int;

            let mut y: u32 = lo;
            while y < h
                invariant
                    fsv == views(images@),
                    frames_wf(fsv),
                    equal_dims(fsv),
                    n == images@.len(),
                    0 <= i < n,
                    w as nat == fsv[0].width,
                    h as nat == fsv[0].height,
                    nn == n as int,
                    hh == h as int,
                    oo == overlap as int,
                    oo <= hh,
                    ss == hh - oo,
                    hf == oo / 2,
                    step as int == ss,
                    total_height as int == stitched_height(nn, hh, oo),
                    y_offset as int == i as int * ss,
                    y_offset as int + hh <= total_height as int,
                    lo as int == (if i == 0 {
                        0int
                    } else {
                        hf
                    }),
                    lo_row == y_offset as int + lo as int,
                    lo_row <= covered(i as int, ss, hh) || i == 0,
                    lo <= y <= h,
                    out@.wf(),
                    out@.width == w as nat,
                    out@.height == total_height as nat,
                    forall|x2: int, yy: int|
                        0 <= x2 < w && 0 <= yy < covered(i as int, ss, hh) && yy < lo_row
                            ==> out@.pix(x2, yy) == fsv[winner(i as int, ss, hf, yy)].pix(
                            x2,
                            yy - winner(i as int, ss, hf, yy) * ss,
                        ),
                    forall|x2: int, yy: int|
                        0 <= x2 < w && lo_row <= yy < y_offset as int + y as int ==> out@.pix(
                            x2,
                            yy,
                        ) == fsv[i as int].pix(x2, yy - i as int * ss),
                decreases h - y,
            {
                let target_y: u32 = y_offset + y;
                let mut x: u32 = 0;
                while x < w
                    invariant
                        fsv == views(images@),
                        frames_wf(fsv),
                        equal_dims(fsv),
                        n == images@.len(),
                        0 <= i < n,
                        w as nat == fsv[0].width,
                        h as nat == fsv[0].height,
                        nn == n as int,
                        hh == h as int,
                        oo == overlap as int,
                        oo <= hh,
                        ss == hh - oo,
                        hf == oo / 2,
                        total_height as int == stitched_height(nn, hh, oo),
                        y_offset as int == i as int * ss,
                        y_offset as int + hh <= total_height as int,
                        lo_row == y_offset as int + lo as int,
                        lo <= y < h,
                        target_y as int == y_offset as int + y as int,
                        x <= w,
                        out@.wf(),
                        out@.width == w as nat,
                        out@.height == total_height as nat,
                        forall|x2: int, yy: int|
                            0 <= x2 < w && 0 <= yy < covered(i as int, ss, hh) && yy < lo_row
                                ==> out@.pix(x2, yy) == fsv[winner(i as int, ss, hf, yy)].pix(
                                x2,
                                yy - winner(i as int, ss, hf, yy) * ss,
                            ),
                        forall|x2: int, yy: int|
                            0 <= x2 < w && lo_row <= yy < target_y as int ==> out@.pix(x2, yy)
                                == fsv[i as int].pix(x2, yy - i as int * ss),
                        forall|x2: int|
                            0 <= x2 < x ==> out@.pix(x2, target_y as int) == fsv[i as int].pix(
                                x2,
                                y as int,
                            ),
                    decreases w - x,
                {
                    proof {
                        assert(fsv[i as int] == images@[i as int]@);
                    }
                    let p = images[i].get_pixel(x, y);
                    out.put_pixel(x, target_y, p);
                    x = x + 1;
                }
                y = y + 1;
            }

            proof {
                if i > 0 {
                    assert((i as int - 1) * ss + hh == i as int * ss + oo) by (nonlinear_arith)
                        requires
                            ss == hh - oo,
                    ;
                }
                assert forall|x2: int, yy: int|
                    0 <= x2 < w && 0 <= yy < covered(i as int + 1, ss, hh) implies out@.pix(x2, yy)
                    == fsv[winner(i as int + 1, ss, hf, yy)].pix(
                    x2,
                    yy - winner(i as int + 1, ss, hf, yy) * ss,
                ) by {
                    if yy < lo_row {
                        lemma_winner_freeze(i as int + 1, ss, hf, yy);
                    } else {
                        lemma_winner_top(i as int + 1, ss, hf, yy);
                    }
                }
            }
            i = i + 1;
        }
        proof {
            assert(covered(nn, ss, hh) == total_height as int);
        }
        Ok(out)
    }
}

} // verus!
