//! The drawing interface: lines and depth-tested triangles, chainable.

use crate::canvas::paint;
use crate::canvas::Canvas;
use crate::canvas::Color;
use crate::depth::DepthBuffer;
use crate::geometry::Vec2Di;
use crate::geometry::Vec3Di;
use crate::line::draw_line;
use crate::line::line_points;
use crate::triangle::draw_triangle;
use crate::triangle::triangle_depths;
use crate::triangle::triangle_pixels;
use vstd::prelude::*;

verus! {

/// A surface on which lines and triangles can be drawn. Every call hands
/// the surface back, so that drawing calls can be chained.
pub trait Painting: Sized {
    /// Width and height of the surface, in pixels.
    spec fn extent(&self) -> (nat, nat);

    /// The colour at each position of the surface.
    spec fn surface(&self) -> Map<(int, int), Color>;

    /// Whether `(x, y)` addresses a pixel of the surface.
    open spec fn holds(&self, x: int, y: int) -> bool {
        0 <= x < self.extent().0 && 0 <= y < self.extent().1
    }

    /// Whether `zbuffer` has one cell for each pixel of the surface.
    open spec fn fits(&self, zbuffer: &DepthBuffer) -> bool {
        &&& zbuffer.spec_width() == self.extent().0
        &&& zbuffer.spec_height() == self.extent().1
    }

    /// Draws the line between `v0` and `v1`, both on the surface, in `color`:
    /// `max(|dx|, |dy|) + 1` pixels, the same whichever endpoint comes first.
    fn line(&mut self, v0: Vec2Di, v1: Vec2Di, color: Color) -> (r: &mut Self)
        requires
            old(self).holds(v0.x as int, v0.y as int),
            old(self).holds(v1.x as int, v1.y as int),
        ensures
            *final(self) == *final(r),
            r.extent() == old(self).extent(),
            r.surface() == paint(old(self).surface(), line_points(v0, v1).to_set(), color),
    ;

    /// Draws the triangle `v0`, `v1`, `v2`, all three on the surface, in
    /// `color`, depth-tested against `zbuffer`.
    fn triangle(
        &mut self,
        v0: Vec3Di,
        v1: Vec3Di,
        v2: Vec3Di,
        color: Color,
        zbuffer: &mut DepthBuffer,
    ) -> (r: &mut Self)
        requires
            old(self).holds(v0.x as int, v0.y as int),
            old(self).holds(v1.x as int, v1.y as int),
            old(self).holds(v2.x as int, v2.y as int),
            old(self).fits(old(zbuffer)),
        ensures
            *final(self) == *final(r),
            r.extent() == old(self).extent(),
            r.fits(final(zbuffer)),
            final(zbuffer).depths() == triangle_depths(old(zbuffer).depths(), v0, v1, v2),
            r.surface() == triangle_pixels(
                old(self).surface(),
                old(zbuffer).depths(),
                v0,
                v1,
                v2,
                color,
            ),
    ;
}

impl Painting for Canvas {
    open spec fn extent(&self) -> (nat, nat) {
        (self.spec_width(), self.spec_height())
    }

    open spec fn surface(&self) -> Map<(int, int), Color> {
        self.pixels()
    }

    fn line(&mut self, v0: Vec2Di, v1: Vec2Di, color: Color) -> (r: &mut Self) {
        draw_line(self, v0, v1, color);
        self
    }

    fn triangle(
        &mut self,
        v0: Vec3Di,
        v1: Vec3Di,
        v2: Vec3Di,
        color: Color,
        zbuffer: &mut DepthBuffer,
    ) -> (r: &mut Self) {
        draw_triangle(self, v0, v1, v2, color, zbuffer);
        self
    }
}

/// Draws the line between `v0` and `v1` if both lie on the canvas, and
/// says whether it did. Otherwise the canvas is left as it was.
pub fn try_line(canvas: &mut Canvas, v0: Vec2Di, v1: Vec2Di, color: Color) -> (drawn: bool)
    ensures
        drawn == (old(canvas).holds(v0.x as int, v0.y as int) && old(canvas).holds(
            v1.x as int,
            v1.y as int,
        )),
        final(canvas).extent() == old(canvas).extent(),
        final(canvas).surface() == if drawn {
            paint(old(canvas).surface(), line_points(v0, v1).to_set(), color)
        } else {
            old(canvas).surface()
        },
{
    if canvas.has_point(v0.x, v0.y) && canvas.has_point(v1.x, v1.y) {
        canvas.line(v0, v1, color);
        true
    } else {
        false
    }
}

/// Draws the triangle `v0`, `v1`, `v2` if its three vertices lie on the
/// canvas and `zbuffer` has the size of the canvas, and says whether it
/// did. Otherwise canvas and buffer are left as they were.
pub fn try_triangle(
    canvas: &mut Canvas,
    v0: Vec3Di,
    v1: Vec3Di,
    v2: Vec3Di,
    color: Color,
    zbuffer: &mut DepthBuffer,
) -> (drawn: bool)
    ensures
        drawn == {
            &&& old(canvas).holds(v0.x as int, v0.y as int)
            &&& old(canvas).holds(v1.x as int, v1.y as int)
            &&& old(canvas).holds(v2.x as int, v2.y as int)
            &&& old(canvas).fits(old(zbuffer))
        },
        final(canvas).extent() == old(canvas).extent(),
        final(zbuffer).spec_width() == old(zbuffer).spec_width(),
        final(zbuffer).spec_height() == old(zbuffer).spec_height(),
        final(zbuffer).depths() == if drawn {
            triangle_depths(old(zbuffer).depths(), v0, v1, v2)
        } else {
            old(zbuffer).depths()
        },
        final(canvas).surface() == if drawn {
            triangle_pixels(old(canvas).surface(), old(zbuffer).depths(), v0, v1, v2, color)
        } else {
            old(canvas).surface()
        },
{
    let fits = zbuffer.width() == canvas.width() as usize && zbuffer.height()
        == canvas.height() as usize;
    if fits && canvas.has_point(v0.x, v0.y) && canvas.has_point(v1.x, v1.y) && canvas.has_point(
        v2.x,
        v2.y,
    ) {
        canvas.triangle(v0, v1, v2, color, zbuffer);
        true
    } else {
        false
    }
}

} // verus!
