use vstd::prelude::*;
use crate::img::ColorImage;

verus! {

/// A linear contrast factor, given as the exact ratio `num / den`.
/// `num == den` leaves an image unchanged; a larger ratio increases contrast,
/// a smaller one decreases it.
#[derive(Clone, Copy, PartialEq, Eq, Structural, Debug)]
pub struct ContrastFactor {
    pub num: u32,
    pub den: u32,
}

impl ContrastFactor {
    /// The ratio has a positive denominator.
    pub open spec fn wf(&self) -> bool {
        self.den >= 1
    }
}

/// One channel value `c` after the linear contrast stretch
/// `128 - 128·f + (c/255)·f·255` with `f = num / den`, evaluated exactly as
/// `(128·den + num·(c − 128)) / den`, truncated and clamped to the 8-bit range.
pub open spec fn contrast_px_spec(c: int, num: int, den: int) -> int {
    let v = 128 * den + num * (c - 128);
    if v <= 0 {
        0
    } else if v / den >= 255 {
        255
    } else {
        v / den
    }
}

/// A flat color buffer after the contrast stretch: the red, green and blue
/// channels are stretched, the alpha channel passes through unchanged.
pub open spec fn contrast_color_spec(s: Seq<u8>, num: int, den: int) -> Seq<u8> {
    Seq::new(
        s.len(),
        |i: int|
            if i % 4 == 3 {
                s[i]
            } else {
                contrast_px_spec(s[i] as int, num, den) as u8
            },
    )
}

/// Apply the contrast stretch to a single channel value.
pub fn apply_contrast_to_channel(c: u8, factor: &ContrastFactor) -> (r: u8)
    requires
        factor.wf(),
    ensures
        r as int == contrast_px_spec(c as int, factor.num as int, factor.den as int),
{
    proof {
        let nn = factor.num as int;
        let cc = c as int;
        assert(-(128 * nn) <= nn * (cc - 128) <= 127 * nn) by (nonlinear_arith)
            requires
                0 <= nn,
                0 <= cc <= 255,
        ;
    }
    let v: i64 = 128 * (factor.den as i64) + (factor.num as i64) * (c as i64 - 128);
    if v <= 0 {
        0
    } else {
        let q: u64 = (v as u64) / (factor.den as u64);
        if q >= 255 {
            255
        } else {
            q as u8
        }
    }
}

/// A new image of the same dimensions with the contrast stretch applied to
/// every color channel; alpha passes through. Pure: the input is not touched.
pub fn adjust_contrast(image: &ColorImage, factor: &ContrastFactor) -> (r: ColorImage)
    requires
        image.wf(),
        factor.wf(),
    ensures
        r.wf(),
        r.width == image.width,
        r.height == image.height,
        r.pixels@ == contrast_color_spec(image.pixels@, factor.num as int, factor.den as int),
{
    let n = image.pixels.len();
    let mut out: Vec<u8> = Vec::new();
    let mut i: usize = 0;
    while i < n
        invariant
            i <= n,
            n == image.pixels@.len(),
            factor.wf(),
            out@.len() == i,
            forall|j: int|
                0 <= j < i ==> out@[j] == contrast_color_spec(
                    image.pixels@,
                    factor.num as int,
                    factor.den as int,
                )[j],
        decreases n - i,
    {
        if i % 4 == 3 {
            let v = image.pixels[i];
            out.push(v);
        } else {
            let v = apply_contrast_to_channel(image.pixels[i], factor);
            out.push(v);
        }
        i = i + 1;
    }
    proof {
        assert(out@ =~= contrast_color_spec(
            image.pixels@,
            factor.num as int,
            factor.den as int,
        ));
    }
    ColorImage { width: image.width, height: image.height, pixels: out }
}

} // verus!
