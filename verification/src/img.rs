use vstd::prelude::*;

verus! {

/// A color image: `width * height` pixels in row-major order, four 8-bit
/// channels per pixel (red, green, blue, alpha). Immutable once built; every
/// operation of the engine produces a new image instead of mutating one.
pub struct ColorImage {
    pub width: usize,
    pub height: usize,
    pub pixels: Vec<u8>,
}

impl ColorImage {
    /// The pixel buffer holds exactly four bytes per pixel.
    pub open spec fn wf(&self) -> bool {
        self.pixels@.len() == 4 * (self.width * self.height)
    }
}

/// A grayscale image: one 8-bit intensity per pixel, row-major.
pub struct GrayImage {
    pub width: usize,
    pub height: usize,
    pub pixels: Vec<u8>,
}

impl GrayImage {
    /// The pixel buffer holds exactly one byte per pixel.
    pub open spec fn wf(&self) -> bool {
        self.pixels@.len() == self.width * self.height
    }
}

/// Intensity of one color pixel: the standard luma weighting of the red,
/// green and blue channels; the alpha channel does not contribute.
pub open spec fn luma_spec(r: int, g: int, b: int) -> int {
    (2126 * r + 7152 * g + 722 * b) / 10000
}

/// The grayscale reduction of a flat color buffer.
pub open spec fn gray_of_color(s: Seq<u8>) -> Seq<u8> {
    Seq::new(
        (s.len() / 4) as nat,
        |p: int| luma_spec(s[4 * p] as int, s[4 * p + 1] as int, s[4 * p + 2] as int) as u8,
    )
}

/// Intensity of one color pixel, computed exactly as `luma_spec` says.
pub fn luma(r: u8, g: u8, b: u8) -> (v: u8)
    ensures
        v as int == luma_spec(r as int, g as int, b as int),
{
    let acc: u32 = 2126 * (r as u32) + 7152 * (g as u32) + 722 * (b as u32);
    (acc / 10000) as u8
}

/// Reduce a color image to a single-channel intensity image of the same
/// dimensions. Deterministic and pure.
pub fn to_luma(img: &ColorImage) -> (r: GrayImage)
    requires
        img.wf(),
    ensures
        r.wf(),
        r.width == img.width,
        r.height == img.height,
        r.pixels@ == gray_of_color(img.pixels@),
{
    let plen = img.pixels.len();
    proof {
        assert(4 * ((img.width * img.height) as int) == plen as int);
    }
    let n = img.width * img.height;
    let mut out: Vec<u8> = Vec::new();
    let mut p: usize = 0;
    while p < n
        invariant
            p <= n,
            img.wf(),
            n == img.width * img.height,
            plen == img.pixels@.len(),
            4 * (n as int) == plen as int,
            out@.len() == p,
            forall|i: int| 0 <= i < p ==> out@[i] == gray_of_color(img.pixels@)[i],
        decreases n - p,
    {
        let base = 4 * p;
        let v = luma(img.pixels[base], img.pixels[base + 1], img.pixels[base + 2]);
        out.push(v);
        p = p + 1;
    }
    proof {
        assert(out@ =~= gray_of_color(img.pixels@));
    }
    GrayImage { width: img.width, height: img.height, pixels: out }
}

/// The sub-region of width `tw` and height `th` whose top-left corner is
/// `(x, y)`, flattened row-major.
pub open spec fn region_spec(s: Seq<u8>, img_w: int, x: int, y: int, tw: int, th: int) -> Seq<
    u8,
> {
    Seq::new((tw * th) as nat, |i: int| s[(y + i / tw) * img_w + x + i % tw])
}

/// Copy the `tw` by `th` sub-region at `(x, y)` out of a grayscale image.
pub fn extract_region(img: &GrayImage, x: usize, y: usize, tw: usize, th: usize) -> (r: Vec<u8>)
    requires
        img.wf(),
        1 <= tw,
        1 <= th,
        x + tw <= img.width,
        y + th <= img.height,
    ensures
        r@ == region_spec(img.pixels@, img.width as int, x as int, y as int, tw as int, th as int),
        r@.len() == tw * th,
{
    let ghost gspec = region_spec(
        img.pixels@,
        img.width as int,
        x as int,
        y as int,
        tw as int,
        th as int,
    );
    proof {
        assert(gspec.len() == tw * th);
    }
    let plen = img.pixels.len();
    let mut out: Vec<u8> = Vec::new();
    let mut row: usize = 0;
    while row < th
        invariant
            row <= th,
            img.wf(),
            plen == img.pixels@.len(),
            1 <= tw,
            1 <= th,
            x + tw <= img.width,
            y + th <= img.height,
            out@.len() == row * tw,
            gspec == region_spec(
                img.pixels@,
                img.width as int,
                x as int,
                y as int,
                tw as int,
                th as int,
            ),
            forall|i: int| 0 <= i < row * tw ==> out@[i] == gspec[i],
        decreases th - row,
    {
        let mut col: usize = 0;
        proof {
            assert((row as int) * (tw as int) + (tw as int) == (row as int + 1) * (
            tw as int)) by (nonlinear_arith);
            assert((row as int + 1) * (tw as int) <= (th as int) * (tw as int))
                by (nonlinear_arith)
                requires
                    (row as int) + 1 <= (th as int),
                    (tw as int) >= 0,
            ;
        }
        while col < tw
            invariant
                col <= tw,
                row < th,
                img.wf(),
                plen == img.pixels@.len(),
                1 <= tw,
                1 <= th,
                x + tw <= img.width,
                y + th <= img.height,
                out@.len() == row * tw + col,
                gspec == region_spec(
                    img.pixels@,
                    img.width as int,
                    x as int,
                    y as int,
                    tw as int,
                    th as int,
                ),
                forall|i: int| 0 <= i < row * tw + col ==> out@[i] == gspec[i],
            decreases tw - col,
        {
            proof {
                let w = img.width as int;
                let h = img.height as int;
                assert((y as int + row as int) * w + (x as int) + (col as int) < w * h)
                    by (nonlinear_arith)
                    requires
                        (y as int) + (row as int) < h,
                        (x as int) + (col as int) < w,
                        w >= 1,
                ;
                let i = (row as int) * (tw as int) + (col as int);
                assert(i + 1 <= (th as int) * (tw as int)) by (nonlinear_arith)
                    requires
                        i == (row as int) * (tw as int) + (col as int),
                        (row as int) < (th as int),
                        (col as int) < (tw as int),
                        (tw as int) >= 1,
                ;
                assert((th as int) * (tw as int) == (tw as int) * (th as int))
                    by (nonlinear_arith);
                assert(0 <= i < gspec.len());
                vstd::arithmetic::div_mod::lemma_fundamental_div_mod_converse(
                    i,
                    tw as int,
                    row as int,
                    col as int,
                );
                assert(gspec[i] == img.pixels@[(y as int + i / (tw as int)) * (img.width as int)
                    + (x as int) + i % (tw as int)]);
                assert(gspec[i] == img.pixels@[(y as int + row as int) * (img.width as int) + (
                x as int) + (col as int)]);
                assert((y as int + row as int) * (img.width as int) + (x as int) + (col as int)
                    < plen as int);
            }
            let idx = (y + row) * img.width + (x + col);
            let v = img.pixels[idx];
            out.push(v);
            col = col + 1;
        }
        row = row + 1;
    }
    proof {
        assert((th as int) * (tw as int) == (tw as int) * (th as int)) by (nonlinear_arith);
        assert(out@ =~= gspec);
    }
    out
}

} // verus!
