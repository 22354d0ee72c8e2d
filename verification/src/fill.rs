//! Flat triangles: the same scanline walk as the depth-tested triangle,
//! with every covered pixel drawn unconditionally.

use crate::canvas::paint;
use crate::canvas::Canvas;
use crate::canvas::Color;
use crate::geometry::Vec2Di;
use crate::geometry::Vec3D;
use crate::geometry::Vec3Di;
use crate::scan::between;
use crate::scan::interpolate_at;
use crate::scan::within_span;
use crate::triangle::edge_x;
use crate::triangle::pass_covers;
use crate::triangle::sort_by_y;
use crate::triangle::sorted_by_y;
use crate::triangle::triangle_covers;
use vstd::prelude::*;

verus! {

/// The screen point `v` as a vertex at depth zero.
pub open spec fn at_depth_zero(v: Vec2Di) -> Vec3Di {
    Vec3D { x: v.x, y: v.y, z: 0i32 }
}

/// The positions of row `y` between columns `xa` and `xb` that lie left of
/// `limit`.
pub open spec fn span_points(y: int, xa: int, xb: int, limit: int) -> Set<(int, int)> {
    Set::new(|pos: (int, int)| pos.1 == y && pos.0 < limit && between(xa, xb, pos.0))
}

/// The positions that a sub-triangle covers in its rows below `limit`.
pub open spec fn pass_points(p: Vec3Di, q: Vec3Di, r: Vec3Di, limit: int) -> Set<(int, int)> {
    Set::new(|pos: (int, int)| pos.1 < limit && pass_covers(p, q, r, pos))
}

/// The positions that the triangle covers.
pub open spec fn triangle_points(v0: Vec2Di, v1: Vec2Di, v2: Vec2Di) -> Set<(int, int)> {
    Set::new(
        |pos: (int, int)|
            triangle_covers(at_depth_zero(v0), at_depth_zero(v1), at_depth_zero(v2), pos),
    )
}

/// Colours the columns of row `y` from `xa` to `xb`, ends included.
pub fn fill_span(canvas: &mut Canvas, y: i32, xa: i32, xb: i32, color: Color)
    requires
        old(canvas).contains(xa as int, y as int),
        old(canvas).contains(xb as int, y as int),
    ensures
        final(canvas).spec_width() == old(canvas).spec_width(),
        final(canvas).spec_height() == old(canvas).spec_height(),
        final(canvas).pixels() == paint(
            old(canvas).pixels(),
            span_points(y as int, xa as int, xb as int, crate::scan::whole_span(xa as int, xb as int)),
            color,
        ),
{
    let ghost pixels_before = canvas.pixels();
    let lo: i64 = if xa < xb {
        xa as i64
    } else {
        xb as i64
    };
    let hi: i64 = if xa < xb {
        xb as i64
    } else {
        xa as i64
    };
    let mut x: i64 = lo;
    proof {
        assert(canvas.pixels() =~= paint(
            pixels_before,
            span_points(y as int, xa as int, xb as int, x as int),
            color,
        ));
    }
    while x <= hi
        invariant
            lo == crate::scan::min_of(xa as int, xb as int),
            hi + 1 == crate::scan::whole_span(xa as int, xb as int),
            lo <= x <= hi + 1,
            canvas.contains(xa as int, y as int),
            canvas.contains(xb as int, y as int),
            canvas.spec_width() == old(canvas).spec_width(),
            canvas.spec_height() == old(canvas).spec_height(),
            canvas.pixels() == paint(
                pixels_before,
                span_points(y as int, xa as int, xb as int, x as int),
                color,
            ),
        decreases hi + 1 - x,
    {
        canvas.put_pixel(x as u32, y as u32, color);
        proof {
            assert(canvas.pixels() =~= paint(
                pixels_before,
                span_points(y as int, xa as int, xb as int, x + 1),
                color,
            ));
        }
        x = x + 1;
    }
}

/// Colours the sub-triangle with apex `p`, short edge to `q` and long edge
/// to `r`. Nothing is drawn where `p` and `q` are level.
pub fn fill_pass(canvas: &mut Canvas, p: Vec3Di, q: Vec3Di, r: Vec3Di, color: Color)
    requires
        old(canvas).contains(p.x as int, p.y as int),
        old(canvas).contains(q.x as int, q.y as int),
        old(canvas).contains(r.x as int, r.y as int),
        p.y != q.y ==> within_span(q.y - p.y, r.y - p.y),
    ensures
        final(canvas).spec_width() == old(canvas).spec_width(),
        final(canvas).spec_height() == old(canvas).spec_height(),
        final(canvas).pixels() == paint(
            old(canvas).pixels(),
            pass_points(p, q, r, crate::triangle::whole_pass(p, q)),
            color,
        ),
{
    let ghost pixels_before = canvas.pixels();
    if q.y == p.y {
        proof {
            assert(canvas.pixels() =~= paint(
                pixels_before,
                pass_points(p, q, r, crate::triangle::whole_pass(p, q)),
                color,
            ));
        }
        return ;
    }
    let lo: i64 = if p.y < q.y {
        p.y as i64
    } else {
        q.y as i64
    };
    let hi: i64 = if p.y < q.y {
        q.y as i64
    } else {
        p.y as i64
    };
    let short: i64 = q.y as i64 - p.y as i64;
    let long: i64 = r.y as i64 - p.y as i64;
    let mut y: i64 = lo;
    proof {
        assert(canvas.pixels() =~= paint(pixels_before, pass_points(p, q, r, y as int), color));
    }
    while y <= hi
        invariant
            p.y != q.y,
            within_span(q.y - p.y, r.y - p.y),
            short == q.y - p.y,
            long == r.y - p.y,
            lo == if p.y < q.y { p.y } else { q.y },
            hi + 1 == crate::triangle::whole_pass(p, q),
            lo <= y <= hi + 1,
            canvas.contains(p.x as int, p.y as int),
            canvas.contains(q.x as int, q.y as int),
            canvas.contains(r.x as int, r.y as int),
            canvas.spec_width() == old(canvas).spec_width(),
            canvas.spec_height() == old(canvas).spec_height(),
            canvas.pixels() == paint(pixels_before, pass_points(p, q, r, y as int), color),
        decreases hi + 1 - y,
    {
        let t: i64 = y - p.y as i64;
        let xa = interpolate_at(p.x, q.x, t, short);
        let xb = interpolate_at(p.x, r.x, t, long);
        fill_span(canvas, y as i32, xa, xb, color);
        proof {
            assert(xa == edge_x(p, q, y as int));
            assert(xb == edge_x(p, r, y as int));
            assert(canvas.pixels() =~= paint(pixels_before, pass_points(p, q, r, y + 1), color));
        }
        y = y + 1;
    }
}

/// Colours the triangle `v0`, `v1`, `v2`, all three on the canvas, in
/// `color`, without a depth test.
pub fn fill_triangle(canvas: &mut Canvas, v0: Vec2Di, v1: Vec2Di, v2: Vec2Di, color: Color)
    requires
        old(canvas).contains(v0.x as int, v0.y as int),
        old(canvas).contains(v1.x as int, v1.y as int),
        old(canvas).contains(v2.x as int, v2.y as int),
    ensures
        final(canvas).spec_width() == old(canvas).spec_width(),
        final(canvas).spec_height() == old(canvas).spec_height(),
        final(canvas).pixels() == paint(old(canvas).pixels(), triangle_points(v0, v1, v2), color),
{
    let ghost pixels_before = canvas.pixels();
    let a = Vec3D { x: v0.x, y: v0.y, z: 0i32 };
    let b = Vec3D { x: v1.x, y: v1.y, z: 0i32 };
    let c = Vec3D { x: v2.x, y: v2.y, z: 0i32 };
    let (s0, s1, s2) = sort_by_y(a, b, c);
    fill_pass(canvas, s0, s1, s2, color);
    fill_pass(canvas, s2, s1, s0, color);
    proof {
        assert(sorted_by_y(a, b, c) == (s0, s1, s2));
        assert forall|pos: (int, int)| #[trigger]
            triangle_points(v0, v1, v2).contains(pos) <==> (pass_points(
                s0,
                s1,
                s2,
                crate::triangle::whole_pass(s0, s1),
            ).contains(pos) || pass_points(
                s2,
                s1,
                s0,
                crate::triangle::whole_pass(s2, s1),
            ).contains(pos)) by {
            assert(triangle_points(v0, v1, v2).contains(pos) == triangle_covers(a, b, c, pos));
        }
        assert(canvas.pixels() =~= paint(pixels_before, triangle_points(v0, v1, v2), color));
    }
}

} // verus!
