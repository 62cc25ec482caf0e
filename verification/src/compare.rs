//! Frame comparison: exact identity of whole rasters and thresholded
//! similarity over the overlap band two consecutive captures share.

use vstd::prelude::*;

use crate::raster::{Raster, RasterView};
use crate::ScreenCapture;

verus! {

/// Two rasters are comparable only when both dimensions agree.
pub open spec fn same_dims(a: RasterView, b: RasterView) -> bool {
    a.width == b.width && a.height == b.height
}

/// Exact full-frame equality: equal dimensions and every pixel equal.
pub open spec fn identical(a: RasterView, b: RasterView) -> bool {
    &&& same_dims(a, b)
    &&& forall|x: int, y: int|
        0 <= x < a.width && 0 <= y < a.height ==> a.pix(x, y) == b.pix(x, y)
}

/// Cell (`x`, `y`) of the overlap band differs: row `y` of the bottom `o`
/// rows of `a` against row `y` of the top `o` rows of `b`.
pub open spec fn band_mismatch(a: RasterView, b: RasterView, o: nat, x: int, y: int) -> bool {
    a.pix(x, a.height - o + y) != b.pix(x, y)
}

/// Mismatching cells among the first `x` columns of band row `y`.
pub open spec fn row_diffs(a: RasterView, b: RasterView, o: nat, y: int, x: int) -> nat
    decreases x,
{
    if x <= 0 {
        0
    } else {
        row_diffs(a, b, o, y, x - 1) + if band_mismatch(a, b, o, x - 1, y) {
            1nat
        } else {
            0nat
        }
    }
}

/// Mismatching cells in the first `y` complete rows of the overlap band.
pub open spec fn band_diffs_upto(a: RasterView, b: RasterView, o: nat, y: int) -> nat
    decreases y,
{
    if y <= 0 {
        0
    } else {
        band_diffs_upto(a, b, o, y - 1) + row_diffs(a, b, o, y - 1, a.width as int)
    }
}

/// Mismatching cells in the whole overlap band of height `o`.
pub open spec fn band_diffs(a: RasterView, b: RasterView, o: nat) -> nat {
    band_diffs_upto(a, b, o, o as int)
}

/// The band is byte-identical: no cell of the overlap band differs.
pub open spec fn band_equal(a: RasterView, b: RasterView, o: nat) -> bool {
    forall|x: int, y: int| 0 <= x < a.width && 0 <= y < o ==> !band_mismatch(a, b, o, x, y)
}

/// floor(o · width · num / den): how many mismatching cells the similarity
/// test tolerates for the threshold fraction num/den.
pub open spec fn mismatch_budget(a: RasterView, o: nat, num: nat, den: nat) -> nat {
    (o * a.width * num) / den
}

/// What the overlap-similarity test answers: dimensions agree, the band is lower than
/// the rasters, and the mismatch count stays within the budget.
pub open spec fn similar_holds(a: RasterView, b: RasterView, o: nat, num: nat, den: nat) -> bool {
    &&& same_dims(a, b)
    &&& o < a.height
    &&& band_diffs(a, b, o) <= mismatch_budget(a, o, num, den)
}

/// The reported difference share in hundredths of a percent: mismatches found
/// over band size. Mismatched dimensions or an oversized band report the
/// whole band as different; a scan cut short at the budget reports the count
/// it reached (budget + 1). An empty band reports zero.
pub open spec fn reported_permyriad(a: RasterView, b: RasterView, o: nat, num: nat, den: nat) -> nat {
    if !same_dims(a, b) || o >= a.height {
        10000
    } else {
        let total = o * a.width;
        if total == 0 {
            0
        } else if band_diffs(a, b, o) <= mismatch_budget(a, o, num, den) {
            band_diffs(a, b, o) * 10000 / total
        } else {
            (mismatch_budget(a, o, num, den) + 1) * 10000 / total
        }
    }
}

/// Outcome of an overlap-similarity comparison: the answer and the observed
/// difference share in hundredths of a percent of the overlap band.
#[derive(Clone, Copy, Debug, PartialEq, Eq, Structural)]
pub struct Similarity {
    pub similar: bool,
    pub diff_permyriad: u64,
}

/// A row prefix holds at most as many mismatches as cells.
proof fn lemma_row_diffs_le(a: RasterView, b: RasterView, o: nat, y: int, x: int)
    requires
        x >= 0,
    ensures
        row_diffs(a, b, o, y, x) <= x,
    decreases x,
{
    if x > 0 {
        lemma_row_diffs_le(a, b, o, y, x - 1);
    }
}

/// Longer row prefixes hold at least as many mismatches.
proof fn lemma_row_diffs_mono(a: RasterView, b: RasterView, o: nat, y: int, x1: int, x2: int)
    requires
        0 <= x1 <= x2,
    ensures
        row_diffs(a, b, o, y, x1) <= row_diffs(a, b, o, y, x2),
    decreases x2,
{
    if x1 < x2 {
        lemma_row_diffs_mono(a, b, o, y, x1, x2 - 1);
    }
}

/// A band prefix of `y` rows holds at most `y · width` mismatches.
proof fn lemma_band_upto_le(a: RasterView, b: RasterView, o: nat, y: int)
    requires
        y >= 0,
    ensures
        band_diffs_upto(a, b, o, y) <= y * a.width,
    decreases y,
{
    if y > 0 {
        lemma_band_upto_le(a, b, o, y - 1);
        lemma_row_diffs_le(a, b, o, y - 1, a.width as int);
        assert((y - 1) * a.width + a.width == y * a.width) by (nonlinear_arith);
    }
}

/// More complete rows hold at least as many mismatches.
proof fn lemma_band_upto_mono(a: RasterView, b: RasterView, o: nat, y1: int, y2: int)
    requires
        0 <= y1 <= y2,
    ensures
        band_diffs_upto(a, b, o, y1) <= band_diffs_upto(a, b, o, y2),
    decreases y2,
{
    if y1 < y2 {
        lemma_band_upto_mono(a, b, o, y1, y2 - 1);
    }
}

/// The whole band holds at least the mismatches of any scanned prefix.
proof fn lemma_band_prefix_bound(a: RasterView, b: RasterView, o: nat, y: int, x: int)
    requires
        0 <= y < o,
        0 <= x <= a.width,
    ensures
        band_diffs_upto(a, b, o, y) + row_diffs(a, b, o, y, x) <= band_diffs(a, b, o),
{
    lemma_row_diffs_mono(a, b, o, y, x, a.width as int);
    lemma_band_upto_mono(a, b, o, y + 1, o as int);
}

/// A count within the band reports at most one hundred percent.
proof fn lemma_permyriad_le(d: int, total: int)
    requires
        0 < total,
        0 <= d <= total,
    ensures
        0 <= d * 10000 / total <= 10000,
{
    vstd::arithmetic::mul::lemma_mul_inequality(d, total, 10000);
    vstd::arithmetic::div_mod::lemma_div_is_ordered(d * 10000, total * 10000, total);
    vstd::arithmetic::div_mod::lemma_div_multiples_vanish(10000, total);
    vstd::arithmetic::div_mod::lemma_div_pos_is_pos(d * 10000, total);
}

/// A budget cut from a fraction of at most one stays within the band size.
proof fn lemma_budget_le_total(total: int, num: int, den: int)
    requires
        0 <= total,
        0 < den,
        0 <= num <= den,
    ensures
        0 <= total * num / den <= total,
{
    vstd::arithmetic::mul::lemma_mul_inequality(num, den, total);
    assert(num * total == total * num && den * total == total * den) by (nonlinear_arith);
    vstd::arithmetic::div_mod::lemma_div_is_ordered(total * num, total * den, den);
    vstd::arithmetic::div_mod::lemma_div_multiples_vanish(total, den);
    assert(total * den == den * total) by (nonlinear_arith);
    assert(total * num >= 0) by (nonlinear_arith)
        requires
            total >= 0,
            num >= 0,
    ;
    vstd::arithmetic::div_mod::lemma_div_pos_is_pos(total * num, den);
}

impl ScreenCapture {
    /// Exact end-of-content test: true only when both rasters have the same
    /// dimensions and every pixel agrees; a single differing pixel anywhere
    /// disqualifies identity. Mismatched dimensions are "not identical",
    /// never an error.
    pub fn images_are_identical(&self, img1: &Raster, img2: &Raster) -> (r: bool)
        requires
            img1@.wf(),
            img2@.wf(),
        ensures
            r == identical(img1@, img2@),
    {
        rasters_identical(img1, img2)
    }
}

/// Exact full-frame equality of two rasters; see
/// [`ScreenCapture::images_are_identical`].
pub fn rasters_identical(img1: &Raster, img2: &Raster) -> (r: bool)
    requires
        img1@.wf(),
        img2@.wf(),
    ensures
        r == identical(img1@, img2@),
{
    if img1.width() != img2.width() || img1.height() != img2.height() {
        return false;
    }
    let w = img1.width();
    let h = img1.height();
    let mut y: u32 = 0;
    while y < h
        invariant
            img1@.wf(),
            img2@.wf(),
            same_dims(img1@, img2@),
            w as nat == img1@.width,
            h as nat == img1@.height,
            y <= h,
            forall|x2: int, y2: int|
                0 <= x2 < w && 0 <= y2 < y ==> img1@.pix(x2, y2) == img2@.pix(x2, y2),
        decreases h - y,
    {
        let mut x: u32 = 0;
        while x < w
            invariant
                img1@.wf(),
                img2@.wf(),
                same_dims(img1@, img2@),
                w as nat == img1@.width,
                h as nat == img1@.height,
                y < h,
                x <= w,
                forall|x2: int, y2: int|
                    0 <= x2 < w && 0 <= y2 < y ==> img1@.pix(x2, y2) == img2@.pix(x2, y2),
                forall|x2: int|
                    0 <= x2 < x ==> img1@.pix(x2, y as int) == img2@.pix(x2, y as int),
            decreases w - x,
        {
            let p1 = img1.get_pixel(x, y);
            let p2 = img2.get_pixel(x, y);
            if p1.0 != p2.0 || p1.1 != p2.1 || p1.2 != p2.2 || p1.3 != p2.3 {
                assert(img1@.pix(x as int, y as int) != img2@.pix(x as int, y as int));
                return false;
            }
            x = x + 1;
        }
        y = y + 1;
    }
    true
}

impl ScreenCapture {
    /// Overlap-similarity test: compares the bottom `overlap_height` rows of
    /// `img1` with the top `overlap_height` rows of `img2`, cell by cell,
    /// tolerating up to floor(band size · threshold_num / threshold_den)
    /// mismatches. The scan stops the moment the budget is exceeded.
    /// Mismatched dimensions, or a band at least as tall as the rasters,
    /// yield "not similar" with a difference share of one hundred percent.
    pub fn images_are_similar(
        &self,
        img1: &Raster,
        img2: &Raster,
        overlap_height: u32,
        threshold_num: u32,
        threshold_den: u32,
    ) -> (r: Similarity)
        requires
            img1@.wf(),
            img2@.wf(),
            threshold_den > 0,
            threshold_num <= threshold_den,
        ensures
            r.similar == similar_holds(
                img1@,
                img2@,
                overlap_height as nat,
                threshold_num as nat,
                threshold_den as nat,
            ),
            r.diff_permyriad as nat == reported_permyriad(
                img1@,
                img2@,
                overlap_height as nat,
                threshold_num as nat,
                threshold_den as nat,
            ),
    {
        let ghost o = overlap_height as nat;
        let ghost num = threshold_num as nat;
        let ghost den = threshold_den as nat;
        if img1.width() != img2.width() || img1.height() != img2.height() {
            return Similarity { similar: false, diff_permyriad: 10000 };
        }
        if overlap_height >= img1.height() {
            return Similarity { similar: false, diff_permyriad: 10000 };
        }
        let w = img1.width();
        let h = img1.height();
        let start_y1 = h - overlap_height;
        proof {
            assert(o * w as nat <= 0xffff_ffff * 0xffff_ffff) by (nonlinear_arith)
                requires
                    o <= 0xffff_ffff,
                    w as nat <= 0xffff_ffff,
            ;
        }
        let total: u64 = (overlap_height as u64) * (w as u64);
        proof {
            lemma_budget_le_total(total as int, num as int, den as int);
            assert(mismatch_budget(img1@, o, num, den) == (total as int) * (num as int) / (
            den as int));
            assert(total as int * threshold_num as int <= 0xffff_ffff_ffff_ffff * 0xffff_ffff)
                by (nonlinear_arith)
                requires
                    total as int <= 0xffff_ffff_ffff_ffff,
                    threshold_num as int <= 0xffff_ffff,
            ;
        }
        let budget: u64 = (((total as u128) * (threshold_num as u128)) / (
        threshold_den as u128)) as u64;
        let ghost a = img1@;
        let ghost b = img2@;
        let mut diff: u64 = 0;
        let mut y: u32 = 0;
        while y < overlap_height
            invariant
                a == img1@,
                b == img2@,
                a.wf(),
                b.wf(),
                same_dims(a, b),
                w as nat == a.width,
                h as nat == a.height,
                o == overlap_height as nat,
                o < a.height,
                start_y1 as int == a.height - o,
                total as int == o * a.width,
                num == threshold_num as nat,
                den == threshold_den as nat,
                0 < den,
                num <= den,
                budget as nat == mismatch_budget(a, o, num, den),
                budget <= total,
                y <= overlap_height,
                diff as nat == band_diffs_upto(a, b, o, y as int),
                diff <= budget,
            decreases overlap_height - y,
        {
            let mut x: u32 = 0;
            while x < w
                invariant
                    a == img1@,
                    b == img2@,
                    a.wf(),
                    b.wf(),
                    same_dims(a, b),
                    w as nat == a.width,
                    h as nat == a.height,
                    o == overlap_height as nat,
                    o < a.height,
                    start_y1 as int == a.height - o,
                    total as int == o * a.width,
                    num == threshold_num as nat,
                    den == threshold_den as nat,
                    0 < den,
                    num <= den,
                    budget as nat == mismatch_budget(a, o, num, den),
                    budget <= total,
                    y < overlap_height,
                    x <= w,
                    diff as nat == band_diffs_upto(a, b, o, y as int) + row_diffs(
                        a,
                        b,
                        o,
                        y as int,
                        x as int,
                    ),
                    diff <= budget,
                decreases w - x,
            {
                let p1 = img1.get_pixel(x, start_y1 + y);
                let p2 = img2.get_pixel(x, y);
                if p1.0 != p2.0 || p1.1 != p2.1 || p1.2 != p2.2 || p1.3 != p2.3 {
                    proof {
                        assert(band_mismatch(a, b, o, x as int, y as int));
                        assert(row_diffs(a, b, o, y as int, x as int + 1) == row_diffs(
                            a,
                            b,
                            o,
                            y as int,
                            x as int,
                        ) + 1);
                        lemma_band_prefix_bound(a, b, o, y as int, x as int + 1);
                        lemma_band_upto_le(a, b, o, o as int);
                    }
                    diff = diff + 1;
                    if diff > budget {
                        proof {
                            assert(total > 0) by (nonlinear_arith)
                                requires
                                    total as int == o * a.width,
                                    o > 0,
                                    a.width > 0,
                            ;
                            lemma_permyriad_le(diff as int, total as int);
                        }
                        let per: u64 = (((diff as u128) * 10000) / (total as u128)) as u64;
                        return Similarity { similar: false, diff_permyriad: per };
                    }
                }
                x = x + 1;
            }
            y = y + 1;
        }
        if total == 0 {
            Similarity { similar: true, diff_permyriad: 0 }
        } else {
            proof {
                lemma_permyriad_le(diff as int, total as int);
            }
            let per: u64 = (((diff as u128) * 10000) / (total as u128)) as u64;
            Similarity { similar: true, diff_permyriad: per }
        }
    }
}

} // verus!
