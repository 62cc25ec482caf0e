//! Laws of the comparison and stitching engine, stated and proved once over
//! the same specifications the executable functions are verified against.

use vstd::prelude::*;

use crate::compare::{
    band_diffs_upto, band_equal, band_mismatch, identical, mismatch_budget, reported_permyriad,
    row_diffs, same_dims, similar_holds,
};
use crate::raster::RasterView;
use crate::stitch::{stitch_post, stitched_height, winner};

verus! {

/// Identity comparison is reflexive: any raster is identical to itself.
pub proof fn lemma_identity_reflexive(a: RasterView)
    ensures
        identical(a, a),
{
}

/// One differing pixel anywhere disqualifies identity: two equal-sized
/// rasters that disagree at some pixel are not identical.
pub proof fn lemma_one_pixel_breaks_identity(a: RasterView, b: RasterView, x: int, y: int)
    requires
        same_dims(a, b),
        0 <= x < a.width,
        0 <= y < a.height,
        a.pix(x, y) != b.pix(x, y),
    ensures
        !identical(a, b),
{
}

/// Rasters of mismatched dimensions are never identical and never similar,
/// and the similarity test reports the full one hundred percent difference
/// for them — never an error.
pub proof fn lemma_dims_mismatch_disqualifies(
    a: RasterView,
    b: RasterView,
    o: nat,
    num: nat,
    den: nat,
)
    requires
        !same_dims(a, b),
    ensures
        !identical(a, b),
        !similar_holds(a, b, o, num, den),
        reported_permyriad(a, b, o, num, den) == 10000,
{
}

/// An empty row prefix count means every scanned cell of the row agreed.
proof fn lemma_row_diffs_zero(a: RasterView, b: RasterView, o: nat, y: int, x: int)
    requires
        x >= 0,
    ensures
        (row_diffs(a, b, o, y, x) == 0) <==> (forall|x2: int|
            0 <= x2 < x ==> !band_mismatch(a, b, o, x2, y)),
    decreases x,
{
    if x > 0 {
        lemma_row_diffs_zero(a, b, o, y, x - 1);
    }
}

/// An empty band count means every cell of the scanned rows agreed.
proof fn lemma_band_diffs_zero(a: RasterView, b: RasterView, o: nat, y: int)
    requires
        y >= 0,
    ensures
        (band_diffs_upto(a, b, o, y) == 0) <==> (forall|x2: int, y2: int|
            0 <= x2 < a.width && 0 <= y2 < y ==> !band_mismatch(a, b, o, x2, y2)),
    decreases y,
{
    if y > 0 {
        lemma_band_diffs_zero(a, b, o, y - 1);
        lemma_row_diffs_zero(a, b, o, y - 1, a.width as int);
    }
}

/// With threshold fraction zero the similarity test is exact equality over
/// the overlap band alone: it tolerates no mismatching cell there, and asks
/// nothing of the rest of the image.
pub proof fn lemma_zero_threshold_is_band_equality(a: RasterView, b: RasterView, o: nat, den: nat)
    requires
        den > 0,
    ensures
        similar_holds(a, b, o, 0, den) <==> (same_dims(a, b) && o < a.height && band_equal(
            a,
            b,
            o,
        )),
{
    assert(o * a.width * 0 == 0) by (nonlinear_arith);
    assert(mismatch_budget(a, o, 0, den) == 0);
    lemma_band_diffs_zero(a, b, o, o as int);
}

/// Stitching a single frame returns it unchanged: the output has its
/// dimensions and its pixel content, whatever the overlap value.
pub proof fn lemma_stitch_single_frame_unchanged(f: RasterView, o: nat, out: RasterView)
    requires
        stitch_post(seq![f], o, out),
    ensures
        identical(out, f),
{
    assert(seq![f][0] == f);
    assert(out.height == f.height as int + 0 * (f.height - o));
    assert forall|x: int, y: int|
        0 <= x < out.width && 0 <= y < out.height implies out.pix(x, y) == f.pix(x, y) by {
        let s = f.height as int - o;
        assert(winner(1, s, o as int / 2, y) == 0);
        assert(out.pix(x, y) == seq![f][winner(1, s, o as int / 2, y)].pix(
            x,
            y - winner(1, s, o as int / 2, y) * s,
        ));
    }
    assert(same_dims(out, f));
}

/// Stitching `n` frames of height `h` with overlap `o` yields output height
/// `h + (n − 1) · (h − o)` exactly.
pub proof fn lemma_stitch_height(fs: Seq<RasterView>, o: nat, out: RasterView)
    requires
        fs.len() >= 1,
        stitch_post(fs, o, out),
    ensures
        out.height == fs[0].height + (fs.len() - 1) * (fs[0].height - o),
{
    assert(stitched_height(fs.len() as int, fs[0].height as int, o as int) == fs[0].height + (
    fs.len() - 1) * (fs[0].height - o));
}

} // verus!
