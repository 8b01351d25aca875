use vstd::prelude::*;
use vstd::arithmetic::div_mod::{lemma_fundamental_div_mod, lemma_fundamental_div_mod_converse};
use crate::color::Color;
use crate::convert::clip;
use crate::scalar::Scalar;

verus! {

/// The place inside a texture `bound` pixels wide of the pixel at `coord` on a texture
/// that repeats without end in both directions. `coord` counts in pixels: the pixel
/// that holds it is the greatest integer not above it, so that every pixel is one wide
/// on either side of zero. That integer is held to the range of a signed 32-bit integer
/// and wrapped into the texture.
pub open spec fn wrapped(coord: Scalar, bound: u32) -> int {
    clip(coord.floored(), i32::MIN as int, i32::MAX as int) % (bound as int)
}

/// Wraps a texture position, counted in pixels, into a texture `bound` pixels wide:
/// positions past either end come back in from the other.
pub fn wrap(coord: Scalar, bound: u32) -> (place: u32)
    requires
        0 < bound,
    ensures
        place == wrapped(coord, bound),
        place < bound,
{
    let signed_bound: i64 = bound as i64;
    let cut: i64 = coord.floor_to_i32() as i64;
    let wrapped: i64 = cut % signed_bound;

    if wrapped < 0 {
        proof {
            let back = (-cut) % (bound as int);
            let laps = (-cut) / (bound as int);
            lemma_fundamental_div_mod(-cut, bound as int);
            assert(cut == (-laps - 1) * bound + (bound - back)) by (nonlinear_arith)
                requires
                    -cut == bound * laps + back,
            ;
            lemma_fundamental_div_mod_converse(cut as int, bound as int, -laps - 1, bound - back);
        }
        (wrapped + signed_bound) as u32
    } else {
        proof {
            if cut < 0 {
                let laps = (-cut) / (bound as int);
                lemma_fundamental_div_mod(-cut, bound as int);
                assert(cut == (-laps) * bound + 0) by (nonlinear_arith)
                    requires
                        -cut == bound * laps + 0,
                ;
                lemma_fundamental_div_mod_converse(cut as int, bound as int, -laps, 0);
            }
        }
        wrapped as u32
    }
}

/// The encoding of ten parts in 255 on each channel, the colour of a surface for which
/// a scene names none.
pub const DEFAULT_HEX: u32 = 0x0A_0A_0A;

/// A surface pattern: the pixels of a decoded image, row after row from the top, four
/// bytes to the pixel (red, green, blue, alpha). `scale` stretches the pattern over the
/// surface.
#[derive(Clone, Debug)]
pub struct ImageTexture {
    pub width: u32,
    pub height: u32,
    pub pixels: Vec<u8>,
    pub scale: Scalar,
}

/// How a surface is coloured: one colour all over, or a pattern read from an image.
#[derive(Clone, Debug)]
pub enum Coloration {
    Color(Color),
    Texture(ImageTexture),
}

impl ImageTexture {
    /// The pattern holds four bytes for each of its pixels and no more.
    pub open spec fn wf(self) -> bool {
        self.pixels@.len() == 4 * self.width * self.height
    }

    /// The pattern is well formed and has pixels.
    pub open spec fn samplable(self) -> bool {
        self.wf() && 0 < self.width && 0 < self.height
    }

    /// Where the bytes of the pixel under a texture position counted in pixels begin,
    /// the pattern repeating without end in both directions.
    pub open spec fn place(self, x: Scalar, y: Scalar) -> int {
        4 * (wrapped(y, self.height) * self.width + wrapped(x, self.width))
    }

    /// The colour that stands at a place of the pattern's bytes; the alpha that follows
    /// it is not read.
    pub open spec fn shows(self, place: int, color: Color) -> bool {
        color.is_rgb(self.pixels@[place], self.pixels@[place + 1], self.pixels@[place + 2])
    }

    /// The pattern of `width` times `height` pixels, stretched by `scale`, or nothing
    /// where `pixels` does not hold four bytes for each of them.
    pub fn new(scale: Scalar, width: u32, height: u32, pixels: Vec<u8>) -> (pattern: Option<
        ImageTexture,
    >)
        ensures
            pattern is Some <==> pixels@.len() == 4 * width * height,
            pattern matches Some(p) ==> p.wf() && p.scale == scale && p.width == width && p.height
                == height && p.pixels@ == pixels@,
    {
        if ImageTexture::holds(pixels.len(), width, height) {
            Some(ImageTexture { width, height, pixels, scale })
        } else {
            None
        }
    }

    /// Whether `len` bytes are four for each pixel of `width` times `height`.
    fn holds(len: usize, width: u32, height: u32) -> (fit: bool)
        ensures
            fit == (len == 4 * width * height),
    {
        assert(width * height <= 0xFFFF_FFFF * 0xFFFF_FFFF) by (nonlinear_arith)
            requires
                0 <= width <= 0xFFFF_FFFF,
                0 <= height <= 0xFFFF_FFFF,
        ;
        assert(4 * width * height == 4 * (width * height)) by (nonlinear_arith);
        let area: u128 = (width as u128) * (height as u128);
        len as u128 == 4 * area
    }

    /// The number of pixels in a row of the pattern.
    pub fn width(&self) -> (width: u32)
        ensures
            width == self.width,
    {
        self.width
    }

    /// The number of pixels in a column of the pattern.
    pub fn height(&self) -> (height: u32)
        ensures
            height == self.height,
    {
        self.height
    }

    /// The colour of the pattern at a texture position. `x` and `y` count in pixels of
    /// the pattern: the position on the surface, divided by the pattern's scale and
    /// multiplied by the pattern's width and height. The alpha of the pixel is dropped.
    pub fn get(&self, x: Scalar, y: Scalar) -> (color: Color)
        requires
            self.samplable(),
        ensures
            self.shows(self.place(x, y), color),
            0 <= self.place(x, y) <= self.pixels@.len() - 4,
    {
        let wrapped_x = wrap(x, self.width);
        let wrapped_y = wrap(y, self.height);

        let len = self.pixels.len();
        proof {
            let (w, h) = (self.width as int, self.height as int);
            let (col, row) = (wrapped_x as int, wrapped_y as int);
            assert(4 * w * h == 4 * (w * h)) by (nonlinear_arith);
            assert(row * w + col <= w * h - 1) by (nonlinear_arith)
                requires
                    0 <= col < w,
                    0 <= row < h,
            ;
            assert(row * w >= 0) by (nonlinear_arith)
                requires
                    0 <= row,
                    0 <= w,
            ;
            assert(4 * (row * w + col) + 3 < len);
        }
        let at: usize = 4 * (wrapped_y as usize * self.width as usize + wrapped_x as usize);
        let pixel = [
            self.pixels[at],
            self.pixels[at + 1],
            self.pixels[at + 2],
            self.pixels[at + 3],
        ];
        Color::from_pixel(pixel)
    }

    /// The colour of the pattern at a texture position counted in pixels, or nothing
    /// where the pattern has no pixel to give.
    pub fn sample(&self, x: Scalar, y: Scalar) -> (color: Option<Color>)
        ensures
            color is Some <==> self.samplable(),
            color matches Some(c) ==> self.shows(self.place(x, y), c),
    {
        if 0 < self.width && 0 < self.height && ImageTexture::holds(
            self.pixels.len(),
            self.width,
            self.height,
        ) {
            Some(self.get(x, y))
        } else {
            None
        }
    }
}

impl Coloration {
    /// One colour all over, written as one number, `0xRRGGBB`.
    pub fn flat(hex: u32) -> (coloration: Coloration)
        ensures
            coloration matches Coloration::Color(c) && c.is_rgb(
                Color::hex_red(hex),
                Color::hex_green(hex),
                Color::hex_blue(hex),
            ),
    {
        Coloration::Color(Color::from_hex(hex))
    }

    /// What `get` answers at a texture position counted in pixels.
    pub open spec fn shows(self, x: Scalar, y: Scalar, color: Color) -> bool {
        match self {
            Coloration::Color(c) => color == c,
            Coloration::Texture(pattern) => pattern.shows(pattern.place(x, y), color),
        }
    }

    /// There is a colour at every texture position: a pattern is well formed and has
    /// pixels.
    pub open spec fn samplable(self) -> bool {
        self matches Coloration::Texture(pattern) ==> pattern.samplable()
    }

    /// The colour at a texture position: the one colour of a plain surface wherever the
    /// position lies, and the pixel under the position for a pattern. `x` and `y` count
    /// in pixels of the pattern's image.
    pub fn get(&self, x: Scalar, y: Scalar) -> (color: Color)
        requires
            self.samplable(),
        ensures
            self.shows(x, y, color),
    {
        match self {
            Coloration::Color(color) => *color,
            Coloration::Texture(texture) => texture.get(x, y),
        }
    }

    /// The colour at a texture position counted in pixels, or nothing where a pattern's
    /// image has no pixel to give.
    pub fn sample(&self, x: Scalar, y: Scalar) -> (color: Option<Color>)
        ensures
            color is Some <==> self.samplable(),
            color matches Some(c) ==> self.shows(x, y, c),
    {
        match self {
            Coloration::Color(color) => Some(*color),
            Coloration::Texture(texture) => texture.sample(x, y),
        }
    }
}

impl Default for Coloration {
    /// A dark grey all over: ten parts in 255 on each channel.
    fn default() -> (coloration: Coloration)
        ensures
            coloration matches Coloration::Color(c) && c.is_rgb(10, 10, 10),
    {
        Coloration::flat(DEFAULT_HEX)
    }
}

} // verus!
