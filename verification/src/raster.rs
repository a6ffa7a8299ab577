//! The two bitmaps that pass between the stages: the canonical RGBA image and
//! the single-channel alpha mask.

use vstd::prelude::*;

verus! {

/// A grid of 8-bit samples, row by row from the top left.
pub struct Raster {
    pub width: nat,
    pub height: nat,
    pub samples: Seq<u8>,
}

/// A grid with at least one pixel and four samples for each.
pub open spec fn is_rgba(r: Raster) -> bool {
    &&& r.width > 0
    &&& r.height > 0
    &&& r.samples.len() == 4 * (r.width * r.height)
}

/// A grid with at least one pixel and one sample for each.
pub open spec fn is_mask(r: Raster) -> bool {
    &&& r.width > 0
    &&& r.height > 0
    &&& r.samples.len() == r.width * r.height
}

/// Whether `len` samples are exactly `per_pixel` for each pixel of a
/// `width` by `height` grid that is not empty.
pub open spec fn fills(width: u32, height: u32, per_pixel: nat, len: nat) -> bool {
    &&& width > 0
    &&& height > 0
    &&& len == per_pixel * (width as nat * height as nat)
}

/// Tests `fills` without overflow.
pub fn check_fills(width: u32, height: u32, per_pixel: usize, len: usize) -> (ok: bool)
    requires
        1 <= per_pixel <= 4,
    ensures
        ok == fills(width, height, per_pixel as nat, len as nat),
{
    if width == 0 || height == 0 {
        return false;
    }
    proof {
        assert(width as nat * height as nat <= 0xffff_ffff * 0xffff_ffff) by (nonlinear_arith)
            requires
                width <= 0xffff_ffff,
                height <= 0xffff_ffff,
        ;
    }
    let area: u64 = width as u64 * height as u64;
    let n: u64 = len as u64;
    let k: u64 = per_pixel as u64;
    proof {
        vstd::arithmetic::div_mod::lemma_fundamental_div_mod(n as int, k as int);
        if n == k * area {
            vstd::arithmetic::div_mod::lemma_fundamental_div_mod_converse(
                n as int,
                k as int,
                area as int,
                0,
            );
        }
    }
    n % k == 0 && n / k == area
}

/// The normalised RGBA bitmap that every stage after decoding works on.
/// It is never empty: `width > 0` and `height > 0`.
#[derive(Debug)]
pub struct CanonicalImage {
    width: u32,
    height: u32,
    pixels: Vec<u8>,
}

impl View for CanonicalImage {
    type V = Raster;

    closed spec fn view(&self) -> Raster {
        Raster { width: self.width as nat, height: self.height as nat, samples: self.pixels@ }
    }
}

impl CanonicalImage {
    #[verifier::type_invariant]
    pub closed spec fn inv(&self) -> bool {
        fills(self.width, self.height, 4, self.pixels@.len())
    }

    /// Builds an image from its samples; `None` unless the grid has a pixel
    /// and `pixels` holds exactly four samples for each.
    pub fn from_raw(width: u32, height: u32, pixels: Vec<u8>) -> (r: Option<CanonicalImage>)
        ensures
            r is Some <==> fills(width, height, 4, pixels@.len()),
            r is Some ==> r->0@ == (Raster {
                width: width as nat,
                height: height as nat,
                samples: pixels@,
            }),
    {
        if check_fills(width, height, 4, pixels.len()) {
            Some(CanonicalImage { width, height, pixels })
        } else {
            None
        }
    }

    /// Builds an image whose samples are known to fill the grid.
    pub(crate) fn assemble(width: u32, height: u32, pixels: Vec<u8>) -> (r: CanonicalImage)
        requires
            fills(width, height, 4, pixels@.len()),
        ensures
            r@ == (Raster { width: width as nat, height: height as nat, samples: pixels@ }),
            is_rgba(r@),
    {
        CanonicalImage { width, height, pixels }
    }

    pub fn width(&self) -> (w: u32)
        ensures
            w == self@.width,
            w > 0,
    {
        proof {
            use_type_invariant(self);
        }
        self.width
    }

    pub fn height(&self) -> (h: u32)
        ensures
            h == self@.height,
            h > 0,
    {
        proof {
            use_type_invariant(self);
        }
        self.height
    }

    /// The samples, four to a pixel.
    pub fn pixels(&self) -> (p: &Vec<u8>)
        ensures
            p@ == self@.samples,
            is_rgba(self@),
            self@.width <= u32::MAX,
            self@.height <= u32::MAX,
    {
        proof {
            use_type_invariant(self);
        }
        &self.pixels
    }

    /// Gives up the image for its samples.
    pub fn into_raw(self) -> (p: Vec<u8>)
        ensures
            p@ == self@.samples,
            is_rgba(self@),
    {
        proof {
            use_type_invariant(&self);
        }
        self.pixels
    }

    /// The four samples of the pixel in column `x` of row `y`.
    pub fn get_pixel(&self, x: u32, y: u32) -> (p: [u8; 4])
        requires
            x < self@.width,
            y < self@.height,
        ensures
            forall|c: int| 0 <= c < 4 ==> p[c] == self@.samples[4 * (y * self@.width + x) + c],
    {
        proof {
            use_type_invariant(self);
            lemma_cell_in_grid(x as nat, y as nat, self.width as nat, self.height as nat);
            assert(4 * (y * self.width + x) + 3 < self.pixels.len());
        }
        let i: usize = (y as usize * self.width as usize + x as usize) * 4;
        [self.pixels[i], self.pixels[i + 1], self.pixels[i + 2], self.pixels[i + 3]]
    }
}

/// One 8-bit foreground value per pixel: 0 is background, 255 foreground.
/// It is never empty.
#[derive(Debug)]
pub struct AlphaMask {
    width: u32,
    height: u32,
    values: Vec<u8>,
}

impl View for AlphaMask {
    type V = Raster;

    closed spec fn view(&self) -> Raster {
        Raster { width: self.width as nat, height: self.height as nat, samples: self.values@ }
    }
}

impl AlphaMask {
    #[verifier::type_invariant]
    pub closed spec fn inv(&self) -> bool {
        fills(self.width, self.height, 1, self.values@.len())
    }

    /// Builds a mask from its values; `None` unless the grid has a pixel and
    /// `values` holds exactly one value for each.
    pub fn from_raw(width: u32, height: u32, values: Vec<u8>) -> (r: Option<AlphaMask>)
        ensures
            r is Some <==> fills(width, height, 1, values@.len()),
            r is Some ==> r->0@ == (Raster {
                width: width as nat,
                height: height as nat,
                samples: values@,
            }),
    {
        if check_fills(width, height, 1, values.len()) {
            Some(AlphaMask { width, height, values })
        } else {
            None
        }
    }

    /// Builds a mask whose values are known to fill the grid.
    pub(crate) fn assemble(width: u32, height: u32, values: Vec<u8>) -> (r: AlphaMask)
        requires
            fills(width, height, 1, values@.len()),
        ensures
            r@ == (Raster { width: width as nat, height: height as nat, samples: values@ }),
            is_mask(r@),
    {
        AlphaMask { width, height, values }
    }

    pub fn width(&self) -> (w: u32)
        ensures
            w == self@.width,
            w > 0,
    {
        proof {
            use_type_invariant(self);
        }
        self.width
    }

    pub fn height(&self) -> (h: u32)
        ensures
            h == self@.height,
            h > 0,
    {
        proof {
            use_type_invariant(self);
        }
        self.height
    }

    /// The values, one to a pixel.
    pub fn values(&self) -> (v: &Vec<u8>)
        ensures
            v@ == self@.samples,
            is_mask(self@),
            self@.width <= u32::MAX,
            self@.height <= u32::MAX,
    {
        proof {
            use_type_invariant(self);
        }
        &self.values
    }

    /// Gives up the mask for its values.
    pub fn into_raw(self) -> (v: Vec<u8>)
        ensures
            v@ == self@.samples,
            is_mask(self@),
    {
        proof {
            use_type_invariant(&self);
        }
        self.values
    }

    /// The value in column `x` of row `y`.
    pub fn get_pixel(&self, x: u32, y: u32) -> (v: u8)
        requires
            x < self@.width,
            y < self@.height,
        ensures
            v == self@.samples[y * self@.width + x],
    {
        proof {
            use_type_invariant(self);
            lemma_cell_in_grid(x as nat, y as nat, self.width as nat, self.height as nat);
            assert(y * self.width + x < self.values.len());
        }
        self.values[y as usize * self.width as usize + x as usize]
    }
}

/// The cell in column `x` of row `y` lies inside a `w` by `h` grid, and its
/// index gives the column and the row back.
pub proof fn lemma_cell_in_grid(x: nat, y: nat, w: nat, h: nat)
    requires
        x < w,
        y < h,
    ensures
        y * w + x < w * h,
        y * w <= y * w + x,
        (y * w + x) % w == x,
        (y * w + x) / w == y,
{
    assert(y * w + x < w * h) by (nonlinear_arith)
        requires
            x < w,
            y < h,
    ;
    assert(y * w >= 0) by (nonlinear_arith);
    vstd::arithmetic::div_mod::lemma_fundamental_div_mod_converse(
        (y * w + x) as int,
        w as int,
        y as int,
        x as int,
    );
}

} // verus!
