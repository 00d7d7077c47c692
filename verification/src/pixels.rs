//! An RGB raster with eight bits per channel, rows from the top, pixels from
//! the left, three bytes per pixel.

use vstd::prelude::*;

verus! {

/// Where channel `c` of the pixel at (`x`, `y`) lies in the bytes of a raster
/// that is `width` pixels wide.
pub open spec fn byte_index(width: nat, x: int, y: int, c: int) -> int {
    (y * width + x) * 3 + c
}

/// An RGB image.
pub struct RgbImage {
    width: u32,
    height: u32,
    data: Vec<u8>,
}

/// A byte index inside a raster stays below its length.
pub proof fn lemma_byte_index_in_range(width: nat, height: nat, x: int, y: int, c: int)
    requires
        0 <= x < width,
        0 <= y < height,
        0 <= c < 3,
    ensures
        0 <= y * width <= byte_index(width, x, y, c),
        0 <= y * width + x,
        0 <= byte_index(width, x, y, c) < width * height * 3,
{
    assert(0 <= y * width) by (nonlinear_arith)
        requires
            0 <= y,
            0 <= width,
    ;
    assert((y + 1) * width <= height * width) by (nonlinear_arith)
        requires
            y + 1 <= height,
            0 <= width,
    ;
    assert((y + 1) * width == y * width + width) by (nonlinear_arith);
    assert(height * width == width * height) by (nonlinear_arith);
}

impl RgbImage {
    /// The buffer holds three bytes for each pixel, and nothing else.
    #[verifier::type_invariant]
    spec fn well_formed(self) -> bool {
        self.data@.len() == self.width * self.height * 3
    }

    /// The width in pixels.
    pub closed spec fn width(self) -> nat {
        self.width as nat
    }

    /// The height in pixels.
    pub closed spec fn height(self) -> nat {
        self.height as nat
    }

    /// The bytes of the image, row by row.
    pub closed spec fn raw(self) -> Seq<u8> {
        self.data@
    }

    /// Channel `c` (0 red, 1 green, 2 blue) of the pixel at (`x`, `y`).
    pub open spec fn channel(self, x: int, y: int, c: int) -> u8 {
        self.raw()[byte_index(self.width(), x, y, c)]
    }

    /// Takes `data` as the image of the given size, where it holds exactly
    /// three bytes per pixel.
    pub fn from_raw(width: u32, height: u32, data: Vec<u8>) -> (r: Option<RgbImage>)
        ensures
            r is Some <==> data@.len() == width * height * 3,
            r matches Some(img) ==> img.width() == width && img.height() == height && img.raw()
                == data@,
    {
        assert(width * height <= 0xffff_ffff * 0xffff_ffff) by (nonlinear_arith)
            requires
                0 <= width <= 0xffff_ffff,
                0 <= height <= 0xffff_ffff,
        ;
        let pixels: u128 = (width as u128) * (height as u128);
        let bytes: u128 = pixels * 3;
        if data.len() as u128 == bytes {
            Some(RgbImage { width, height, data })
        } else {
            None
        }
    }

    /// The width and the height.
    pub fn dimensions(&self) -> (r: (u32, u32))
        ensures
            r.0 == self.width(),
            r.1 == self.height(),
            self.raw().len() == self.width() * self.height() * 3,
    {
        proof {
            use_type_invariant(self);
        }
        (self.width, self.height)
    }

    /// The bytes of the image.
    pub fn as_raw(&self) -> (r: &Vec<u8>)
        ensures
            r@ == self.raw(),
            r@.len() == self.width() * self.height() * 3,
    {
        proof {
            use_type_invariant(self);
        }
        &self.data
    }

    /// Gives up the image for its bytes.
    pub fn into_raw(self) -> (r: Vec<u8>)
        ensures
            r@ == self.raw(),
            r@.len() == self.width() * self.height() * 3,
    {
        proof {
            use_type_invariant(&self);
        }
        self.data
    }

    /// The three channels of the pixel at (`x`, `y`).
    pub fn get_pixel(&self, x: u32, y: u32) -> (p: [u8; 3])
        requires
            x < self.width(),
            y < self.height(),
        ensures
            forall|c: int| 0 <= c < 3 ==> p[c] == #[trigger] self.channel(x as int, y as int, c),
    {
        proof {
            use_type_invariant(self);
            lemma_byte_index_in_range(self.width(), self.height(), x as int, y as int, 0);
            lemma_byte_index_in_range(self.width(), self.height(), x as int, y as int, 2);
            assert(self.data@.len() == self.width() * self.height() * 3);
            assert((y as usize) * (self.width as usize) == y * self.width());
        }
        let len: usize = self.data.len();
        assert(byte_index(self.width(), x as int, y as int, 2) < len);
        let row: usize = y as usize * self.width as usize;
        let i: usize = (row + x as usize) * 3;
        [self.data[i], self.data[i + 1], self.data[i + 2]]
    }

    /// Lays the image on a canvas of `pad_width` by `pad_height` pixels filled
    /// with `color`, its top-left corner at (`left`, `top`). The pixels of the
    /// image replace those of the canvas.
    pub(crate) fn placed_on(
        &self,
        pad_width: u32,
        pad_height: u32,
        left: u32,
        top: u32,
        color: [u8; 3],
    ) -> (out: RgbImage)
        requires
            left + self.width() <= pad_width,
            top + self.height() <= pad_height,
        ensures
            is_placed(
                out,
                *self,
                (pad_width as nat, pad_height as nat),
                (left as int, top as int),
                color,
            ),
    {
        let (w, h) = self.dimensions();
        let ghost origin = (left as int, top as int);
        let mut data: Vec<u8> = Vec::new();
        let mut y: u32 = 0;
        assert(0 * pad_width * 3 == 0);
        while y < pad_height
            invariant
                y <= pad_height,
                w == self.width(),
                h == self.height(),
                left + w <= pad_width,
                top + h <= pad_height,
                origin == (left as int, top as int),
                data@.len() == y * pad_width * 3,
                forall|px: int, py: int, c: int|
                    0 <= px < pad_width && 0 <= py < y && 0 <= c < 3 ==> data@[#[trigger] byte_index(
                        pad_width as nat,
                        px,
                        py,
                        c,
                    )] == placed_channel(*self, origin, color, px, py, c),
            decreases pad_height - y,
        {
            let mut x: u32 = 0;
            while x < pad_width
                invariant
                    x <= pad_width,
                    y < pad_height,
                    w == self.width(),
                    h == self.height(),
                    left + w <= pad_width,
                    top + h <= pad_height,
                    origin == (left as int, top as int),
                    data@.len() == (y * pad_width + x) * 3,
                    forall|px: int, py: int, c: int|
                        0 <= px < pad_width && 0 <= py < y && 0 <= c < 3 ==> data@[#[trigger] byte_index(
                            pad_width as nat,
                            px,
                            py,
                            c,
                        )] == placed_channel(*self, origin, color, px, py, c),
                    forall|px: int, c: int|
                        0 <= px < x && 0 <= c < 3 ==> data@[#[trigger] byte_index(
                            pad_width as nat,
                            px,
                            y as int,
                            c,
                        )] == placed_channel(*self, origin, color, px, y as int, c),
                decreases pad_width - x,
            {
                let ghost before = data@;
                let inside = x >= left && x - left < w && y >= top && y - top < h;
                if inside {
                    let p = self.get_pixel(x - left, y - top);
                    assert(p[0] == self.channel(x - left, y - top, 0));
                    assert(p[1] == self.channel(x - left, y - top, 1));
                    assert(p[2] == self.channel(x - left, y - top, 2));
                    data.push(p[0]);
                    data.push(p[1]);
                    data.push(p[2]);
                } else {
                    data.push(color[0]);
                    data.push(color[1]);
                    data.push(color[2]);
                }
                proof {
                    assert(before.len() == byte_index(pad_width as nat, x as int, y as int, 0));
                    assert forall|px: int, py: int, c: int|
                        0 <= px < pad_width && 0 <= py < y && 0 <= c < 3 implies data@[#[trigger] byte_index(
                        pad_width as nat,
                        px,
                        py,
                        c,
                    )] == placed_channel(*self, origin, color, px, py, c) by {
                        lemma_byte_index_order(pad_width as nat, px, py, c, x as int, y as int);
                        assert(data@[byte_index(pad_width as nat, px, py, c)] == before[byte_index(
                            pad_width as nat,
                            px,
                            py,
                            c,
                        )]);
                    }
                    assert forall|px: int, c: int| 0 <= px < x + 1 && 0 <= c < 3 implies data@[#[trigger] byte_index(
                        pad_width as nat,
                        px,
                        y as int,
                        c,
                    )] == placed_channel(*self, origin, color, px, y as int, c) by {
                        if px < x {
                            lemma_byte_index_order(
                                pad_width as nat,
                                px,
                                y as int,
                                c,
                                x as int,
                                y as int,
                            );
                            assert(data@[byte_index(pad_width as nat, px, y as int, c)]
                                == before[byte_index(pad_width as nat, px, y as int, c)]);
                        }
                    }
                }
                x += 1;
            }
            proof {
                assert((y * pad_width + pad_width) * 3 == (y + 1) * pad_width * 3) by (nonlinear_arith);
            }
            y += 1;
        }
        let out = RgbImage { width: pad_width, height: pad_height, data };
        proof {
            assert(pad_height * pad_width * 3 == pad_width * pad_height * 3) by (nonlinear_arith);
        }
        out
    }

    /// `image::imageops::resize` with the filter `FilterType::Lanczos3`, on a
    /// borrowed `ImageBuffer` over the bytes of `self`. From its source the
    /// contract takes that the result has the size asked for, three bytes per
    /// pixel, and that a request for the size the image already has gives a
    /// copy. The resampled bytes themselves are the filter's and are left
    /// unstated. The `requires` keeps the two buffers that the function
    /// allocates (one of four 32-bit channels, one of three bytes per pixel)
    /// within what a vector can hold.
    #[verifier::external_body]
    pub(crate) fn resize_lanczos3(&self, nwidth: u32, nheight: u32) -> (out: RgbImage)
        requires
            self.width() * nheight * 16 <= isize::MAX,
            nwidth * nheight * 3 <= isize::MAX,
        ensures
            out.width() == nwidth,
            out.height() == nheight,
            out.raw().len() == nwidth * nheight * 3,
            nwidth == self.width() && nheight == self.height() ==> out.raw() == self.raw(),
    {
        let source = image::ImageBuffer::<image::Rgb<u8>, &[u8]>::from_raw(
            self.width,
            self.height,
            self.data.as_slice(),
        ).unwrap();
        let resized = image::imageops::resize(
            &source,
            nwidth,
            nheight,
            image::imageops::FilterType::Lanczos3,
        );
        RgbImage { width: nwidth, height: nheight, data: resized.into_raw() }
    }
}

/// The drawn part of a canvas: the pixels that an image of `size` covers when
/// its top-left corner is at `origin`.
pub open spec fn covers(origin: (int, int), size: (nat, nat), x: int, y: int) -> bool {
    origin.0 <= x < origin.0 + size.0 && origin.1 <= y < origin.1 + size.1
}

/// Channel `c` at (`x`, `y`) of a canvas of `color` with `img` laid on it
/// at `origin`.
pub open spec fn placed_channel(
    img: RgbImage,
    origin: (int, int),
    color: [u8; 3],
    x: int,
    y: int,
    c: int,
) -> u8 {
    if covers(origin, (img.width(), img.height()), x, y) {
        img.channel(x - origin.0, y - origin.1, c)
    } else {
        color[c]
    }
}

/// `out` is the canvas of `pad_size` (width, height) filled with `color`,
/// with `img` laid on it at `origin`.
pub open spec fn is_placed(
    out: RgbImage,
    img: RgbImage,
    pad_size: (nat, nat),
    origin: (int, int),
    color: [u8; 3],
) -> bool {
    &&& out.width() == pad_size.0
    &&& out.height() == pad_size.1
    &&& out.raw().len() == pad_size.0 * pad_size.1 * 3
    &&& forall|x: int, y: int, c: int|
        0 <= x < pad_size.0 && 0 <= y < pad_size.1 && 0 <= c < 3 ==> out.raw()[#[trigger] byte_index(
            pad_size.0,
            x,
            y,
            c,
        )] == placed_channel(img, origin, color, x, y, c)
}

/// In a raster, the bytes of an earlier pixel lie before those of a later one.
pub proof fn lemma_byte_index_order(width: nat, px: int, py: int, c: int, x: int, y: int)
    requires
        0 <= px < width,
        0 <= py,
        0 <= c < 3,
        0 <= x,
        py < y || (py == y && px < x),
    ensures
        0 <= byte_index(width, px, py, c) < byte_index(width, x, y, 0),
{
    assert(0 <= py * width) by (nonlinear_arith)
        requires
            0 <= py,
            0 <= width,
    ;
    if py < y {
        assert((py + 1) * width <= y * width) by (nonlinear_arith)
            requires
                py + 1 <= y,
                0 <= width,
        ;
        assert((py + 1) * width == py * width + width) by (nonlinear_arith);
    }
}

} // verus!
