use vstd::prelude::*;

verus! {

/// One pixel of an 8-bit RGB image.
#[derive(Clone, Copy, Debug, PartialEq, Eq, Structural)]
pub struct Rgb8 {
    pub r: u8,
    pub g: u8,
    pub b: u8,
}

/// The colour handed out for an image that holds no rows.
pub open spec fn missing_texel() -> Rgb8 {
    Rgb8 { r: 0, g: 255, b: 255 }
}

/// A decoded RGB raster, row-major, three bytes per pixel.
#[derive(Debug)]
pub struct Image {
    width: u32,
    height: u32,
    rgb: Vec<u8>,
}

/// The pixel at column `x`, row `y` of a row-major RGB raster of the given width.
pub open spec fn raster_pixel(rgb: Seq<u8>, width: nat, x: nat, y: nat) -> Rgb8 {
    let base: int = (3 * (y * width + x)) as int;
    Rgb8 { r: rgb[base], g: rgb[base + 1], b: rgb[base + 2] }
}

impl Image {
    /// The raster holds exactly three bytes for every pixel.
    pub closed spec fn wf(&self) -> bool {
        self.rgb@.len() == 3 * (self.width as nat) * (self.height as nat)
    }

    pub closed spec fn spec_width(&self) -> u32 {
        self.width
    }

    pub closed spec fn spec_height(&self) -> u32 {
        self.height
    }

    pub closed spec fn raster(&self) -> Seq<u8> {
        self.rgb@
    }

    pub closed spec fn pixel(&self, x: nat, y: nat) -> Rgb8 {
        raster_pixel(self.raster(), self.width as nat, x, y)
    }

    /// Takes a decoded raster of `width` by `height` pixels; refuses one
    /// whose length is not three bytes per pixel.
    pub fn load_image(width: u32, height: u32, rgb: Vec<u8>) -> (r: Option<Image>)
        ensures
            r.is_some() <==> rgb@.len() == 3 * (width as nat) * (height as nat),
            r.is_some() ==> r.unwrap().wf() && r.unwrap().spec_width() == width
                && r.unwrap().spec_height() == height && r.unwrap().raster() == rgb@,
    {
        let n = rgb.len();
        let w = width as u64;
        let h = height as u64;
        assert(w * h <= 0xffff_ffffu64 * 0xffff_ffffu64) by (nonlinear_arith)
            requires w <= 0xffff_ffffu64, h <= 0xffff_ffffu64;
        let pixels: u64 = w * h;
        if pixels > (usize::MAX as u64) / 3 {
            proof {
                assert(3 * (width as nat) * (height as nat) > usize::MAX) by (nonlinear_arith)
                    requires pixels == w * h, pixels > (usize::MAX as u64) / 3,
                        w == width, h == height;
            }
            return None;
        }
        let expected: usize = (pixels * 3) as usize;
        assert(expected == 3 * (width as nat) * (height as nat)) by (nonlinear_arith)
            requires expected == pixels * 3, pixels == w * h, w == width, h == height;
        if n != expected {
            None
        } else {
            Some(Image { width, height, rgb })
        }
    }

    pub fn width(&self) -> (r: u32)
        ensures
            r == self.spec_width(),
    {
        self.width
    }

    pub fn height(&self) -> (r: u32)
        ensures
            r == self.spec_height(),
    {
        self.height
    }

    /// The pixel at column `x`, row `y`.
    pub fn pixel_data(&self, x: u32, y: u32) -> (r: Rgb8)
        requires
            self.wf(),
            x < self.spec_width(),
            y < self.spec_height(),
        ensures
            r == self.pixel(x as nat, y as nat),
    {
        let n = self.rgb.len();
        let w = self.width as usize;
        proof {
            lemma_pixel_in_raster(self.width as nat, self.height as nat, x as nat, y as nat);
            assert((y as nat) * (w as nat) <= (y as nat) * (w as nat) + (x as nat));
            assert(3 * (self.width as nat) * (self.height as nat) == n);
        }
        let base: usize = 3 * ((y as usize) * w + (x as usize));
        Rgb8 { r: self.rgb[base], g: self.rgb[base + 1], b: self.rgb[base + 2] }
    }

    /// The texel that a texture lookup lands on: the coordinates are clamped
    /// to the last column and row, and an image without pixels answers with
    /// a fixed cyan.
    pub fn sample(&self, i: u32, j: u32) -> (r: Rgb8)
        requires
            self.wf(),
        ensures
            self.spec_width() == 0 || self.spec_height() == 0 ==> r == missing_texel(),
            self.spec_width() > 0 && self.spec_height() > 0 ==> r == self.pixel(
                if i < self.spec_width() { i as nat } else { (self.spec_width() - 1) as nat },
                if j < self.spec_height() { j as nat } else { (self.spec_height() - 1) as nat },
            ),
    {
        if self.width == 0 || self.height == 0 {
            return Rgb8 { r: 0, g: 255, b: 255 };
        }
        let x = if i < self.width { i } else { self.width - 1 };
        let y = if j < self.height { j } else { self.height - 1 };
        self.pixel_data(x, y)
    }
}

proof fn lemma_pixel_in_raster(w: nat, h: nat, x: nat, y: nat)
    requires
        x < w,
        y < h,
    ensures
        3 * (y * w + x) + 2 < 3 * w * h,
{
    assert(y * w + x < w * h) by (nonlinear_arith)
        requires x < w, y < h;
    assert(3 * (w * h) == 3 * w * h) by (nonlinear_arith);
}

} // verus!
