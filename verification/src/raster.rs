//! In-memory RGBA images and verified pixel access.

use vstd::prelude::*;

verus! {

/// Mathematical image: dimensions and byte content, four bytes per pixel,
/// rows stored top to bottom.
pub struct RasterView {
    pub width: nat,
    pub height: nat,
    pub data: Seq<u8>,
}

impl RasterView {
    /// Dimensions and buffer agree: four bytes for each of width × height pixels.
    pub open spec fn wf(self) -> bool {
        self.data.len() == self.width * self.height * 4
    }

    /// The four bytes (red, green, blue, alpha) of the pixel in column `x` of row `y`.
    pub open spec fn pix(self, x: int, y: int) -> (u8, u8, u8, u8) {
        let i = 4 * (y * self.width + x);
        (self.data[i], self.data[i + 1], self.data[i + 2], self.data[i + 3])
    }
}

/// The first byte of pixel (`x`, `y`) lies within a well-formed buffer.
pub proof fn lemma_pixel_in_bounds(w: nat, h: nat, x: int, y: int)
    requires
        0 <= x < w,
        0 <= y < h,
    ensures
        0 <= 4 * (y * w + x),
        4 * (y * w + x) + 3 < w * h * 4,
{
    assert(0 <= 4 * (y * w + x) && 4 * (y * w + x) + 3 < w * h * 4) by (nonlinear_arith)
        requires
            0 <= x < w,
            0 <= y < h,
    ;
}

/// Distinct pixel coordinates have distinct cell numbers in row-major order.
pub proof fn lemma_pixel_cells_distinct(w: nat, x1: int, y1: int, x2: int, y2: int)
    requires
        0 <= x1 < w,
        0 <= x2 < w,
        0 <= y1,
        0 <= y2,
        x1 != x2 || y1 != y2,
    ensures
        y1 * w + x1 != y2 * w + x2,
{
    assert(y1 * w + x1 != y2 * w + x2) by (nonlinear_arith)
        requires
            0 <= x1 < w,
            0 <= x2 < w,
            0 <= y1,
            0 <= y2,
            x1 != x2 || y1 != y2,
    ;
}

/// The RGBA pixel a BGRA source buffer with row stride `bpr` holds at
/// (`x`, `y`): the blue and red bytes swap places, and a pixel whose bytes
/// would lie past the buffer's end is left black and transparent.
pub open spec fn bgra_pix(bytes: Seq<u8>, bpr: int, x: int, y: int) -> (u8, u8, u8, u8) {
    let off = y * bpr + x * 4;
    if off + 3 < bytes.len() {
        (bytes[off + 2], bytes[off + 1], bytes[off], bytes[off + 3])
    } else {
        (0u8, 0u8, 0u8, 0u8)
    }
}

/// In-memory RGBA image: row-major buffer with four bytes per pixel.
///
/// Invariant (`wf` on the view): buffer length equals width × height × 4.
/// Every constructor establishes it and every method preserves it.
pub struct Raster {
    width: u32,
    height: u32,
    data: Vec<u8>,
}

impl View for Raster {
    type V = RasterView;

    closed spec fn view(&self) -> RasterView {
        RasterView { width: self.width as nat, height: self.height as nat, data: self.data@ }
    }
}

impl Raster {
    /// A raster of the given size with every byte zero.
    pub fn new(width: u32, height: u32) -> (r: Raster)
        requires
            width as int * height as int * 4 <= usize::MAX as int,
        ensures
            r@.wf(),
            r@.width == width as nat,
            r@.height == height as nat,
            forall|k: int| 0 <= k < r@.data.len() ==> r@.data[k] == 0u8,
    {
        let len: usize = (width as usize) * (height as usize) * 4;
        let mut data: Vec<u8> = Vec::new();
        while data.len() < len
            invariant
                data@.len() <= len,
                forall|k: int| 0 <= k < data@.len() ==> data@[k] == 0u8,
            decreases len - data@.len(),
        {
            data.push(0u8);
        }
        Raster { width, height, data }
    }

    /// A raster over an existing buffer; `None` when the buffer length does
    /// not match the dimensions.
    pub fn from_bytes(width: u32, height: u32, data: Vec<u8>) -> (r: Option<Raster>)
        ensures
            match r {
                Some(img) => {
                    &&& img@ == (RasterView {
                        width: width as nat,
                        height: height as nat,
                        data: data@,
                    })
                    &&& img@.wf()
                },
                None => data@.len() != width as nat * height as nat * 4,
            },
    {
        proof {
            assert(width as int * height as int <= 0xffff_ffff * 0xffff_ffff)
                by (nonlinear_arith)
                requires
                    width as int <= 0xffff_ffff,
                    height as int <= 0xffff_ffff,
            ;
        }
        if (width as u128) * (height as u128) * 4 == (data.len() as u128) {
            Some(Raster { width, height, data })
        } else {
            None
        }
    }

    pub fn width(&self) -> (w: u32)
        ensures
            w as nat == self@.width,
    {
        self.width
    }

    pub fn height(&self) -> (h: u32)
        ensures
            h as nat == self@.height,
    {
        self.height
    }

    /// The raw byte buffer, row-major, four bytes per pixel.
    pub fn bytes(&self) -> (b: &Vec<u8>)
        ensures
            b@ == self@.data,
    {
        &self.data
    }

    /// The four bytes of the pixel in column `x` of row `y`.
    pub fn get_pixel(&self, x: u32, y: u32) -> (p: (u8, u8, u8, u8))
        requires
            self@.wf(),
            (x as nat) < self@.width,
            (y as nat) < self@.height,
        ensures
            p == self@.pix(x as int, y as int),
    {
        proof {
            lemma_pixel_in_bounds(self@.width, self@.height, x as int, y as int);
        }
        let n = self.data.len();
        let i: usize = 4 * ((y as usize) * (self.width as usize) + (x as usize));
        (self.data[i], self.data[i + 1], self.data[i + 2], self.data[i + 3])
    }

    /// Overwrite the pixel in column `x` of row `y`; every other pixel keeps
    /// its bytes.
    pub fn put_pixel(&mut self, x: u32, y: u32, p: (u8, u8, u8, u8))
        requires
            old(self)@.wf(),
            (x as nat) < old(self)@.width,
            (y as nat) < old(self)@.height,
        ensures
            final(self)@.wf(),
            final(self)@.width == old(self)@.width,
            final(self)@.height == old(self)@.height,
            final(self)@.pix(x as int, y as int) == p,
            forall|x2: int, y2: int|
                0 <= x2 < old(self)@.width && 0 <= y2 < old(self)@.height && !(x2 == x as int
                    && y2 == y as int) ==> final(self)@.pix(x2, y2) == old(self)@.pix(x2, y2),
    {
        proof {
            lemma_pixel_in_bounds(self@.width, self@.height, x as int, y as int);
        }
        let ghost pre = self@;
        let n = self.data.len();
        let i: usize = 4 * ((y as usize) * (self.width as usize) + (x as usize));
        self.data[i] = p.0;
        self.data[i + 1] = p.1;
        self.data[i + 2] = p.2;
        self.data[i + 3] = p.3;
        proof {
            assert forall|x2: int, y2: int|
                0 <= x2 < pre.width && 0 <= y2 < pre.height && !(x2 == x as int && y2
                    == y as int) implies self@.pix(x2, y2) == pre.pix(x2, y2) by {
                lemma_pixel_in_bounds(pre.width, pre.height, x2, y2);
                lemma_pixel_cells_distinct(pre.width, x2, y2, x as int, y as int);
            }
        }
    }

    /// Build a raster out of a BGRA source buffer with a row stride, as a
    /// display's raw pixel data comes: byte order turned to RGBA, and any
    /// pixel whose source bytes would lie past the buffer's end left black
    /// and transparent.
    pub fn from_bgra_rows(bytes: &Vec<u8>, width: u32, height: u32, bytes_per_row: usize) -> (r:
        Raster)
        requires
            width as int * height as int * 4 <= usize::MAX as int,
            height as int * bytes_per_row as int + width as int * 4 <= usize::MAX as int,
        ensures
            r@.wf(),
            r@.width == width as nat,
            r@.height == height as nat,
            forall|x: int, y: int|
                0 <= x < width && 0 <= y < height ==> r@.pix(x, y) == bgra_pix(
                    bytes@,
                    bytes_per_row as int,
                    x,
                    y,
                ),
    {
        let ghost bs = bytes@;
        let ghost bpr = bytes_per_row as int;
        let n = bytes.len();
        let mut out = Raster::new(width, height);
        proof {
            assert forall|x2: int, y2: int|
                0 <= x2 < width && 0 <= y2 < height implies out@.pix(x2, y2) == (
            0u8, 0u8, 0u8, 0u8) by {
                lemma_pixel_in_bounds(out@.width, out@.height, x2, y2);
            }
        }
        let mut y: u32 = 0;
        while y < height
            invariant
                bs == bytes@,
                bpr == bytes_per_row as int,
                n == bs.len(),
                height as int * bpr + width as int * 4 <= usize::MAX as int,
                0 <= y <= height,
                out@.wf(),
                out@.width == width as nat,
                out@.height == height as nat,
                forall|x2: int, y2: int|
                    0 <= x2 < width && 0 <= y2 < y ==> out@.pix(x2, y2) == bgra_pix(
                        bs,
                        bpr,
                        x2,
                        y2,
                    ),
                forall|x2: int, y2: int|
                    0 <= x2 < width && y <= y2 < height ==> out@.pix(x2, y2) == (
                    0u8,
                    0u8,
                    0u8,
                    0u8,
                ),
            decreases height - y,
        {
            proof {
                assert((y as int) * bpr + bpr == (y as int + 1) * bpr) by (nonlinear_arith);
                vstd::arithmetic::mul::lemma_mul_inequality(y as int + 1, height as int, bpr);
                vstd::arithmetic::mul::lemma_mul_inequality(0, y as int, bpr);
            }
            let row_base: usize = (y as usize) * bytes_per_row;
            let mut x: u32 = 0;
            while x < width
                invariant
                    bs == bytes@,
                    bpr == bytes_per_row as int,
                    n == bs.len(),
                    height as int * bpr + width as int * 4 <= usize::MAX as int,
                    0 <= y < height,
                    0 <= x <= width,
                    row_base as int == y as int * bpr,
                    row_base as int + width as int * 4 <= usize::MAX as int,
                    out@.wf(),
                    out@.width == width as nat,
                    out@.height == height as nat,
                    forall|x2: int, y2: int|
                        0 <= x2 < width && 0 <= y2 < y ==> out@.pix(x2, y2) == bgra_pix(
                            bs,
                            bpr,
                            x2,
                            y2,
                        ),
                    forall|x2: int| 0 <= x2 < x ==> out@.pix(x2, y as int) == bgra_pix(
                        bs,
                        bpr,
                        x2,
                        y as int,
                    ),
                    forall|x2: int, y2: int|
                        0 <= x2 < width && y <= y2 < height && (y2 > y || x2 >= x) ==> out@.pix(
                            x2,
                            y2,
                        ) == (0u8, 0u8, 0u8, 0u8),
                decreases width - x,
            {
                let off: usize = row_base + (x as usize) * 4;
                if off + 3 < n {
                    let p = (bytes[off + 2], bytes[off + 1], bytes[off], bytes[off + 3]);
                    out.put_pixel(x, y, p);
                } else {
                    proof {
                        assert(out@.pix(x as int, y as int) == bgra_pix(bs, bpr, x as int, y as int));
                    }
                }
                x = x + 1;
            }
            y = y + 1;
        }
        out
    }

    /// An independent copy with the same dimensions and bytes.
    pub fn dup(&self) -> (r: Raster)
        ensures
            r@ == self@,
    {
        let mut data: Vec<u8> = Vec::new();
        let n = self.data.len();
        while data.len() < n
            invariant
                data@.len() <= n,
                n == self@.data.len(),
                forall|k: int| 0 <= k < data@.len() ==> data@[k] == self@.data[k],
            decreases n - data@.len(),
        {
            let i = data.len();
            data.push(self.data[i]);
        }
        let r = Raster { width: self.width, height: self.height, data };
        proof {
            assert(r@.data =~= self@.data);
        }
        r
    }
}

} // verus!
