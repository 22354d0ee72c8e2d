//! The drawing surface: a grid of RGB pixels kept in an `image` buffer.
//!
//! The buffer itself is opaque to the verifier. What it holds is named by
//! [`canvas_pixels`], [`canvas_width`] and [`canvas_height`], and the few
//! buffer operations the rasterizer needs are wrapped with contracts over
//! those names.

use vstd::prelude::*;

verus! {

/// A colour of three 8-bit channels, without transparency.
#[derive(Debug, Copy, Clone, PartialEq, Eq, Structural)]
pub struct Color {
    pub r: u8,
    pub g: u8,
    pub b: u8,
}

impl Color {
    /// The colour of a fresh canvas.
    pub open spec fn black() -> Color {
        Color { r: 0, g: 0, b: 0 }
    }
}

/// A pixel grid with its origin at the top-left corner.
///
/// Wraps `image::RgbImage`; the verifier does not look inside.
#[verifier::external_body]
pub struct Canvas {
    img: image::RgbImage,
}

/// Number of pixel columns, as `ImageBuffer::width` reports it.
pub uninterp spec fn canvas_width(c: Canvas) -> nat;

/// Number of pixel rows, as `ImageBuffer::height` reports it.
pub uninterp spec fn canvas_height(c: Canvas) -> nat;

/// The colour stored at each `(x, y)` of the buffer.
pub uninterp spec fn canvas_pixels(c: Canvas) -> Map<(int, int), Color>;

/// The positions of a `width` by `height` grid.
pub open spec fn grid(width: nat, height: nat) -> Set<(int, int)> {
    Set::new(|p: (int, int)| 0 <= p.0 < width && 0 <= p.1 < height)
}

/// `pixels` with every position of `points` set to `color`.
pub open spec fn paint(pixels: Map<(int, int), Color>, points: Set<(int, int)>, color: Color) -> Map<
    (int, int),
    Color,
> {
    Map::new(
        |p: (int, int)| pixels.dom().contains(p) || points.contains(p),
        |p: (int, int)|
            if points.contains(p) {
                color
            } else {
                pixels[p]
            },
    )
}

/// `pixels` of a grid of the given height, turned upside down.
pub open spec fn flip_rows(pixels: Map<(int, int), Color>, width: nat, height: nat) -> Map<
    (int, int),
    Color,
> {
    Map::new(
        |p: (int, int)| grid(width, height).contains(p),
        |p: (int, int)| pixels[(p.0, height - 1 - p.1)],
    )
}

/// Bytes that a grid of the given size takes, at three per pixel.
pub open spec fn byte_len(width: u32, height: u32) -> int {
    3 * (width * height)
}

/// `ImageBuffer::new`: a buffer of the given size with every channel zero.
/// It panics when the byte length overflows `usize`, and the vector behind
/// it when the length exceeds `isize::MAX`; the precondition rules out both.
#[verifier::external_body]
fn raw_blank(width: u32, height: u32) -> (c: Canvas)
    requires
        byte_len(width, height) <= isize::MAX,
    ensures
        canvas_width(c) == width,
        canvas_height(c) == height,
        canvas_pixels(c) == Map::new(
            |p: (int, int)| grid(width as nat, height as nat).contains(p),
            |p: (int, int)| Color::black(),
        ),
{
    Canvas { img: image::RgbImage::new(width, height) }
}

/// `ImageBuffer::width`.
#[verifier::external_body]
fn raw_width(c: &Canvas) -> (w: u32)
    ensures
        w == canvas_width(*c),
{
    c.img.width()
}

/// `ImageBuffer::height`.
#[verifier::external_body]
fn raw_height(c: &Canvas) -> (h: u32)
    ensures
        h == canvas_height(*c),
{
    c.img.height()
}

/// `ImageBuffer::get_pixel`: the pixel stored at `(x, y)`. It panics outside
/// the buffer, which the precondition rules out.
#[verifier::external_body]
fn raw_get(c: &Canvas, x: u32, y: u32) -> (color: Color)
    requires
        x < canvas_width(*c),
        y < canvas_height(*c),
    ensures
        color == canvas_pixels(*c)[(x as int, y as int)],
{
    let p = c.img.get_pixel(x, y);
    Color { r: p.0[0], g: p.0[1], b: p.0[2] }
}

/// `ImageBuffer::put_pixel`: overwrites the pixel at `(x, y)` and nothing
/// else. It panics outside the buffer, which the precondition rules out.
#[verifier::external_body]
fn raw_put(c: &mut Canvas, x: u32, y: u32, color: Color)
    requires
        x < canvas_width(*old(c)),
        y < canvas_height(*old(c)),
    ensures
        canvas_width(*final(c)) == canvas_width(*old(c)),
        canvas_height(*final(c)) == canvas_height(*old(c)),
        canvas_pixels(*final(c)) == canvas_pixels(*old(c)).insert((x as int, y as int), color),
{
    c.img.put_pixel(x, y, image::Rgb([color.r, color.g, color.b]));
}

/// `imageops::flip_vertical`: a buffer of the same size in which row `y`
/// holds what row `height - 1 - y` held.
#[verifier::external_body]
fn raw_flip(c: &Canvas) -> (flipped: Canvas)
    ensures
        canvas_width(flipped) == canvas_width(*c),
        canvas_height(flipped) == canvas_height(*c),
        canvas_pixels(flipped) == flip_rows(canvas_pixels(*c), canvas_width(*c), canvas_height(*c)),
{
    Canvas { img: image::imageops::flip_vertical(&c.img) }
}

impl Canvas {
    /// Number of pixel columns.
    pub open spec fn spec_width(&self) -> nat {
        canvas_width(*self)
    }

    /// Number of pixel rows.
    pub open spec fn spec_height(&self) -> nat {
        canvas_height(*self)
    }

    /// The colour at each position.
    pub open spec fn pixels(&self) -> Map<(int, int), Color> {
        canvas_pixels(*self)
    }

    /// Whether `(x, y)` addresses a pixel of this canvas.
    pub open spec fn contains(&self, x: int, y: int) -> bool {
        0 <= x < self.spec_width() && 0 <= y < self.spec_height()
    }

    /// A black canvas of the given size, or `None` when its three bytes per
    /// pixel are more than a vector can hold on this machine.
    pub fn new(width: u32, height: u32) -> (r: Option<Canvas>)
        ensures
            r.is_some() <==> byte_len(width, height) <= isize::MAX,
            r matches Some(c) ==> {
                &&& c.spec_width() == width
                &&& c.spec_height() == height
                &&& c.pixels().dom() == grid(width as nat, height as nat)
                &&& forall|p: (int, int)| #[trigger]
                    grid(width as nat, height as nat).contains(p) ==> c.pixels()[p]
                        == Color::black()
            },
    {
        let area = match (width as usize).checked_mul(height as usize) {
            Some(area) => area,
            None => {
                return None;
            },
        };
        match area.checked_mul(3) {
            Some(bytes) => if bytes <= isize::MAX as usize {
                Some(raw_blank(width, height))
            } else {
                None
            },
            None => None,
        }
    }

    /// Number of pixel columns.
    pub fn width(&self) -> (w: u32)
        ensures
            w == self.spec_width(),
    {
        raw_width(self)
    }

    /// Number of pixel rows.
    pub fn height(&self) -> (h: u32)
        ensures
            h == self.spec_height(),
    {
        raw_height(self)
    }

    /// Whether the screen point `(x, y)` addresses a pixel of this canvas.
    pub fn has_point(&self, x: i32, y: i32) -> (inside: bool)
        ensures
            inside == self.contains(x as int, y as int),
    {
        x >= 0 && y >= 0 && (x as u32) < self.width() && (y as u32) < self.height()
    }

    /// The colour at `(x, y)`.
    pub fn get_pixel(&self, x: u32, y: u32) -> (color: Color)
        requires
            self.contains(x as int, y as int),
        ensures
            color == self.pixels()[(x as int, y as int)],
    {
        raw_get(self, x, y)
    }

    /// Sets the pixel at `(x, y)` to `color` and leaves every other pixel
    /// as it was.
    pub fn put_pixel(&mut self, x: u32, y: u32, color: Color)
        requires
            old(self).contains(x as int, y as int),
        ensures
            final(self).spec_width() == old(self).spec_width(),
            final(self).spec_height() == old(self).spec_height(),
            final(self).pixels() == old(self).pixels().insert((x as int, y as int), color),
    {
        raw_put(self, x, y, color)
    }

    /// A copy turned upside down: the raster's logical origin is bottom-left
    /// while the buffer's is top-left, so a finished picture is flipped once
    /// before it is stored.
    pub fn flip_vertical(&self) -> (flipped: Canvas)
        ensures
            flipped.spec_width() == self.spec_width(),
            flipped.spec_height() == self.spec_height(),
            flipped.pixels() == flip_rows(self.pixels(), self.spec_width(), self.spec_height()),
    {
        raw_flip(self)
    }
}

} // verus!
