//! Depth-tested triangles by scanline.
//!
//! The vertices are ordered by `y`. The triangle is then drawn as two
//! sub-triangles that share the long edge between the lowest and the highest
//! vertex: one from the lowest vertex up to the middle one, one from the
//! highest vertex down to the middle one. On every row of a sub-triangle the
//! long and the short edge are interpolated, and the span between them is
//! drawn. A sub-triangle without height is skipped.

use crate::canvas::Canvas;
use crate::canvas::Color;
use crate::depth::DepthBuffer;
use crate::geometry::Vec3Di;
use crate::scan::between;
use crate::scan::draw_span;
use crate::scan::interpolate;
use crate::scan::interpolate_at;
use crate::depth::is_nearer;
use crate::depth::raised;
use crate::scan::lemma_equal_fractions;
use crate::scan::lemma_interpolate_between;
use crate::scan::span_depth;
use crate::scan::within_span;
use vstd::prelude::*;

verus! {

/// Column at which the edge from `p` to `q` crosses row `y`.
pub open spec fn edge_x(p: Vec3Di, q: Vec3Di, y: int) -> int {
    interpolate(p.x as int, q.x as int, y - p.y, q.y - p.y)
}

/// Depth of the edge from `p` to `q` where it crosses row `y`.
pub open spec fn edge_z(p: Vec3Di, q: Vec3Di, y: int) -> int {
    interpolate(p.z as int, q.z as int, y - p.y, q.y - p.y)
}

/// Whether row `y` belongs to the sub-triangle with apex `p` and short edge
/// to `q`: the rows from `p` to `q`, none if the two are level.
pub open spec fn pass_has_row(p: Vec3Di, q: Vec3Di, y: int) -> bool {
    p.y != q.y && between(p.y as int, q.y as int, y)
}

/// A limit above every row of the sub-triangle: the whole of it.
pub open spec fn whole_pass(p: Vec3Di, q: Vec3Di) -> int {
    if p.y >= q.y {
        p.y + 1
    } else {
        q.y + 1
    }
}

/// Whether the sub-triangle with apex `p`, short edge to `q` and long edge
/// to `r` covers `pos`.
pub open spec fn pass_covers(p: Vec3Di, q: Vec3Di, r: Vec3Di, pos: (int, int)) -> bool {
    pass_has_row(p, q, pos.1) && between(edge_x(p, q, pos.1), edge_x(p, r, pos.1), pos.0)
}

/// Depth of the sub-triangle's surface at `pos`.
pub open spec fn pass_depth(p: Vec3Di, q: Vec3Di, r: Vec3Di, pos: (int, int)) -> int {
    span_depth(
        edge_x(p, q, pos.1),
        edge_z(p, q, pos.1),
        edge_x(p, r, pos.1),
        edge_z(p, r, pos.1),
        pos.0,
    )
}

/// Whether the sub-triangle draws at `pos` in its rows below `limit`: it
/// covers the position and is nearer there than what `depths` holds.
pub open spec fn pass_wins(
    depths: Map<(int, int), int>,
    p: Vec3Di,
    q: Vec3Di,
    r: Vec3Di,
    limit: int,
    pos: (int, int),
) -> bool {
    &&& pos.1 < limit
    &&& pass_covers(p, q, r, pos)
    &&& is_nearer(depths[pos], pass_depth(p, q, r, pos))
}

/// The depths after the rows below `limit` of a sub-triangle were drawn.
pub open spec fn pass_depths(
    depths: Map<(int, int), int>,
    p: Vec3Di,
    q: Vec3Di,
    r: Vec3Di,
    limit: int,
) -> Map<(int, int), int> {
    Map::new(
        |pos: (int, int)| depths.dom().contains(pos),
        |pos: (int, int)|
            if pass_wins(depths, p, q, r, limit, pos) {
                pass_depth(p, q, r, pos)
            } else {
                depths[pos]
            },
    )
}

/// The pixels after the rows below `limit` of a sub-triangle were drawn in
/// `color` against `depths`.
pub open spec fn pass_pixels(
    pixels: Map<(int, int), Color>,
    depths: Map<(int, int), int>,
    p: Vec3Di,
    q: Vec3Di,
    r: Vec3Di,
    limit: int,
    color: Color,
) -> Map<(int, int), Color> {
    Map::new(
        |pos: (int, int)| pixels.dom().contains(pos) || pass_wins(depths, p, q, r, limit, pos),
        |pos: (int, int)|
            if pass_wins(depths, p, q, r, limit, pos) {
                color
            } else {
                pixels[pos]
            },
    )
}

/// The three vertices in ascending order of `y`; vertices on one row keep
/// the order in which they were given.
pub open spec fn sorted_by_y(v0: Vec3Di, v1: Vec3Di, v2: Vec3Di) -> (Vec3Di, Vec3Di, Vec3Di) {
    let a = if v1.y < v0.y {
        v1
    } else {
        v0
    };
    let b = if v1.y < v0.y {
        v0
    } else {
        v1
    };
    if v2.y < a.y {
        (v2, a, b)
    } else if v2.y < b.y {
        (a, v2, b)
    } else {
        (a, b, v2)
    }
}

/// The depths after the triangle was drawn: its lower sub-triangle first,
/// then its upper one.
pub open spec fn triangle_depths(
    depths: Map<(int, int), int>,
    v0: Vec3Di,
    v1: Vec3Di,
    v2: Vec3Di,
) -> Map<(int, int), int> {
    let (s0, s1, s2) = sorted_by_y(v0, v1, v2);
    pass_depths(pass_depths(depths, s0, s1, s2, whole_pass(s0, s1)), s2, s1, s0, whole_pass(s2, s1))
}

/// The pixels after the triangle was drawn in `color` against `depths`.
pub open spec fn triangle_pixels(
    pixels: Map<(int, int), Color>,
    depths: Map<(int, int), int>,
    v0: Vec3Di,
    v1: Vec3Di,
    v2: Vec3Di,
    color: Color,
) -> Map<(int, int), Color> {
    let (s0, s1, s2) = sorted_by_y(v0, v1, v2);
    pass_pixels(
        pass_pixels(pixels, depths, s0, s1, s2, whole_pass(s0, s1), color),
        pass_depths(depths, s0, s1, s2, whole_pass(s0, s1)),
        s2,
        s1,
        s0,
        whole_pass(s2, s1),
        color,
    )
}

/// Orders three vertices by ascending `y`, keeping vertices of one row in
/// the order given.
pub fn sort_by_y(v0: Vec3Di, v1: Vec3Di, v2: Vec3Di) -> (s: (Vec3Di, Vec3Di, Vec3Di))
    ensures
        s == sorted_by_y(v0, v1, v2),
        s.0.y <= s.1.y <= s.2.y,
{
    let (a, b) = if v1.y < v0.y {
        (v1, v0)
    } else {
        (v0, v1)
    };
    if v2.y < a.y {
        (v2, a, b)
    } else if v2.y < b.y {
        (a, v2, b)
    } else {
        (a, b, v2)
    }
}

/// Draws the sub-triangle with apex `p`, short edge to `q` and long edge to
/// `r`: every row from `p` to `q`, as the span between the two edges.
/// Nothing is drawn where `p` and `q` are level.
pub fn draw_pass(
    canvas: &mut Canvas,
    zbuffer: &mut DepthBuffer,
    p: Vec3Di,
    q: Vec3Di,
    r: Vec3Di,
    color: Color,
)
    requires
        old(canvas).contains(p.x as int, p.y as int),
        old(canvas).contains(q.x as int, q.y as int),
        old(canvas).contains(r.x as int, r.y as int),
        p.y != q.y ==> within_span(q.y - p.y, r.y - p.y),
        old(zbuffer).spec_width() == old(canvas).spec_width(),
        old(zbuffer).spec_height() == old(canvas).spec_height(),
    ensures
        final(canvas).spec_width() == old(canvas).spec_width(),
        final(canvas).spec_height() == old(canvas).spec_height(),
        final(zbuffer).spec_width() == old(zbuffer).spec_width(),
        final(zbuffer).spec_height() == old(zbuffer).spec_height(),
        final(zbuffer).depths() == pass_depths(old(zbuffer).depths(), p, q, r, whole_pass(p, q)),
        final(canvas).pixels() == pass_pixels(
            old(canvas).pixels(),
            old(zbuffer).depths(),
            p,
            q,
            r,
            whole_pass(p, q),
            color,
        ),
{
    let ghost depths_before = zbuffer.depths();
    let ghost pixels_before = canvas.pixels();
    if q.y == p.y {
        proof {
            assert(zbuffer.depths() =~= pass_depths(depths_before, p, q, r, whole_pass(p, q)));
            assert(canvas.pixels() =~= pass_pixels(
                pixels_before,
                depths_before,
                p,
                q,
                r,
                whole_pass(p, q),
                color,
            ));
        }
        return ;
    }
    let lo: i64 = if p.y < q.y {
        p.y as i64
    } else {
        q.y as i64
    };
    let hi: i64 = if p.y < q.y {
        q.y as i64
    } else {
        p.y as i64
    };
    let short: i64 = q.y as i64 - p.y as i64;
    let long: i64 = r.y as i64 - p.y as i64;
    let mut y: i64 = lo;
    proof {
        assert(zbuffer.depths() =~= pass_depths(depths_before, p, q, r, y as int));
        assert(canvas.pixels() =~= pass_pixels(
            pixels_before,
            depths_before,
            p,
            q,
            r,
            y as int,
            color,
        ));
    }
    while y <= hi
        invariant
            p.y != q.y,
            within_span(q.y - p.y, r.y - p.y),
            short == q.y - p.y,
            long == r.y - p.y,
            lo == if p.y < q.y { p.y } else { q.y },
            hi + 1 == whole_pass(p, q),
            lo <= y <= hi + 1,
            canvas.contains(p.x as int, p.y as int),
            canvas.contains(q.x as int, q.y as int),
            canvas.contains(r.x as int, r.y as int),
            canvas.spec_width() == old(canvas).spec_width(),
            canvas.spec_height() == old(canvas).spec_height(),
            zbuffer.spec_width() == canvas.spec_width(),
            zbuffer.spec_height() == canvas.spec_height(),
            zbuffer.depths() == pass_depths(depths_before, p, q, r, y as int),
            canvas.pixels() == pass_pixels(pixels_before, depths_before, p, q, r, y as int, color),
        decreases hi + 1 - y,
    {
        let t: i64 = y - p.y as i64;
        let xa = interpolate_at(p.x, q.x, t, short);
        let xb = interpolate_at(p.x, r.x, t, long);
        let za = interpolate_at(p.z, q.z, t, short);
        let zb = interpolate_at(p.z, r.z, t, long);
        draw_span(canvas, zbuffer, y as i32, xa, za, xb, zb, color);
        proof {
            assert(xa == edge_x(p, q, y as int));
            assert(xb == edge_x(p, r, y as int));
            assert(za == edge_z(p, q, y as int));
            assert(zb == edge_z(p, r, y as int));
            assert(zbuffer.depths() =~= pass_depths(depths_before, p, q, r, y + 1));
            assert(canvas.pixels() =~= pass_pixels(
                pixels_before,
                depths_before,
                p,
                q,
                r,
                y + 1,
                color,
            ));
        }
        y = y + 1;
    }
}

/// Draws the triangle `v0`, `v1`, `v2` in `color`, each of its pixels
/// depth-tested against `zbuffer`: a pixel is coloured, and its depth
/// recorded, where the triangle's surface is nearer than everything drawn
/// there before.
pub fn draw_triangle(
    canvas: &mut Canvas,
    v0: Vec3Di,
    v1: Vec3Di,
    v2: Vec3Di,
    color: Color,
    zbuffer: &mut DepthBuffer,
)
    requires
        old(canvas).contains(v0.x as int, v0.y as int),
        old(canvas).contains(v1.x as int, v1.y as int),
        old(canvas).contains(v2.x as int, v2.y as int),
        old(zbuffer).spec_width() == old(canvas).spec_width(),
        old(zbuffer).spec_height() == old(canvas).spec_height(),
    ensures
        final(canvas).spec_width() == old(canvas).spec_width(),
        final(canvas).spec_height() == old(canvas).spec_height(),
        final(zbuffer).spec_width() == old(zbuffer).spec_width(),
        final(zbuffer).spec_height() == old(zbuffer).spec_height(),
        final(zbuffer).depths() == triangle_depths(old(zbuffer).depths(), v0, v1, v2),
        final(canvas).pixels() == triangle_pixels(
            old(canvas).pixels(),
            old(zbuffer).depths(),
            v0,
            v1,
            v2,
            color,
        ),
{
    let (s0, s1, s2) = sort_by_y(v0, v1, v2);
    draw_pass(canvas, zbuffer, s0, s1, s2, color);
    draw_pass(canvas, zbuffer, s2, s1, s0, color);
}

/// Whether the triangle covers `pos`: one of its sub-triangles does.
pub open spec fn triangle_covers(v0: Vec3Di, v1: Vec3Di, v2: Vec3Di, pos: (int, int)) -> bool {
    let (s0, s1, s2) = sorted_by_y(v0, v1, v2);
    pass_covers(s0, s1, s2, pos) || pass_covers(s2, s1, s0, pos)
}

/// Depth of the triangle's surface at a position it covers. On the row of
/// the middle vertex, which both sub-triangles draw, it is the nearer of
/// their two depths.
pub open spec fn triangle_depth(v0: Vec3Di, v1: Vec3Di, v2: Vec3Di, pos: (int, int)) -> int {
    let (s0, s1, s2) = sorted_by_y(v0, v1, v2);
    let lower = pass_depth(s0, s1, s2, pos);
    let upper = pass_depth(s2, s1, s0, pos);
    if pass_covers(s0, s1, s2, pos) && pass_covers(s2, s1, s0, pos) {
        if lower >= upper {
            lower
        } else {
            upper
        }
    } else if pass_covers(s0, s1, s2, pos) {
        lower
    } else {
        upper
    }
}

/// What drawing a triangle does to one pixel: where the triangle covers it
/// and is nearer than what was there, the pixel takes the triangle's colour
/// and its cell the triangle's depth; otherwise both stay as they were.
pub proof fn lemma_triangle_at_pixel(
    pixels: Map<(int, int), Color>,
    depths: Map<(int, int), int>,
    v0: Vec3Di,
    v1: Vec3Di,
    v2: Vec3Di,
    color: Color,
    pos: (int, int),
)
    requires
        depths.dom().contains(pos),
        pixels.dom().contains(pos),
    ensures
        triangle_depths(depths, v0, v1, v2).dom().contains(pos),
        triangle_pixels(pixels, depths, v0, v1, v2, color).dom().contains(pos),
        triangle_depths(depths, v0, v1, v2)[pos] == if triangle_covers(v0, v1, v2, pos) {
            raised(depths[pos], triangle_depth(v0, v1, v2, pos))
        } else {
            depths[pos]
        },
        triangle_pixels(pixels, depths, v0, v1, v2, color)[pos] == if triangle_covers(
            v0,
            v1,
            v2,
            pos,
        ) && is_nearer(depths[pos], triangle_depth(v0, v1, v2, pos)) {
            color
        } else {
            pixels[pos]
        },
{
    let (s0, s1, s2) = sorted_by_y(v0, v1, v2);
    let depths_a = pass_depths(depths, s0, s1, s2, whole_pass(s0, s1));
    let pixels_a = pass_pixels(pixels, depths, s0, s1, s2, whole_pass(s0, s1), color);
    assert(depths_a.dom().contains(pos));
    assert(pixels_a.dom().contains(pos));
    assert(pass_covers(s0, s1, s2, pos) ==> pos.1 < whole_pass(s0, s1));
    assert(pass_covers(s2, s1, s0, pos) ==> pos.1 < whole_pass(s2, s1));
}

/// The depth test keeps the nearest surface: when two triangles are drawn
/// one after the other and both cover a pixel, at different depths of which
/// the larger is nearer than what the pixel held before, the pixel ends up
/// in the colour of the triangle with the larger depth there, and its cell
/// holds that depth, whichever of the two was drawn first.
pub proof fn lemma_nearer_triangle_wins(
    pixels: Map<(int, int), Color>,
    depths: Map<(int, int), int>,
    a0: Vec3Di,
    a1: Vec3Di,
    a2: Vec3Di,
    color_a: Color,
    b0: Vec3Di,
    b1: Vec3Di,
    b2: Vec3Di,
    color_b: Color,
    pos: (int, int),
)
    requires
        depths.dom().contains(pos),
        pixels.dom().contains(pos),
        triangle_covers(a0, a1, a2, pos),
        triangle_covers(b0, b1, b2, pos),
        triangle_depth(a0, a1, a2, pos) != triangle_depth(b0, b1, b2, pos),
        is_nearer(depths[pos], triangle_depth(a0, a1, a2, pos)) || is_nearer(
            depths[pos],
            triangle_depth(b0, b1, b2, pos),
        ),
    ensures
        ({
            let za = triangle_depth(a0, a1, a2, pos);
            let zb = triangle_depth(b0, b1, b2, pos);
            let depths_a = triangle_depths(depths, a0, a1, a2);
            let pixels_a = triangle_pixels(pixels, depths, a0, a1, a2, color_a);
            let depths_b = triangle_depths(depths_a, b0, b1, b2);
            let pixels_b = triangle_pixels(pixels_a, depths_a, b0, b1, b2, color_b);
            &&& depths_b[pos] == if za > zb { za } else { zb }
            &&& pixels_b[pos] == if za > zb { color_a } else { color_b }
        }),
{
    lemma_triangle_at_pixel(pixels, depths, a0, a1, a2, color_a, pos);
    let depths_a = triangle_depths(depths, a0, a1, a2);
    let pixels_a = triangle_pixels(pixels, depths, a0, a1, a2, color_a);
    lemma_triangle_at_pixel(pixels_a, depths_a, b0, b1, b2, color_b, pos);
}

/// Drawing never lowers a cell of the depth buffer.
pub proof fn lemma_depths_only_rise(
    depths: Map<(int, int), int>,
    v0: Vec3Di,
    v1: Vec3Di,
    v2: Vec3Di,
    pos: (int, int),
)
    requires
        depths.dom().contains(pos),
    ensures
        triangle_depths(depths, v0, v1, v2)[pos] >= depths[pos],
{
    let (s0, s1, s2) = sorted_by_y(v0, v1, v2);
    let depths_a = pass_depths(depths, s0, s1, s2, whole_pass(s0, s1));
    assert(depths_a.dom().contains(pos));
    assert(depths_a[pos] >= depths[pos]);
}

/// A sub-triangle stays between its vertices: a position it covers lies on
/// a row between `p` and `q` and in a column between the leftmost and the
/// rightmost of `p`, `q` and `r`.
pub proof fn lemma_pass_stays_inside(p: Vec3Di, q: Vec3Di, r: Vec3Di, pos: (int, int))
    requires
        p.y != q.y ==> within_span(q.y - p.y, r.y - p.y),
        pass_covers(p, q, r, pos),
    ensures
        between(p.y as int, q.y as int, pos.1),
        between(p.x as int, q.x as int, pos.0) || between(p.x as int, r.x as int, pos.0) || between(
            q.x as int,
            r.x as int,
            pos.0,
        ),
{
    let t = pos.1 - p.y;
    lemma_interpolate_between(p.x as int, q.x as int, t, q.y - p.y);
    lemma_interpolate_between(p.x as int, r.x as int, t, r.y - p.y);
}

/// A triangle stays between its vertices, so that one with its vertices on
/// the canvas is drawn without leaving the canvas: a position it covers
/// lies in a row and in a column in which the triangle has a vertex on
/// either side.
pub proof fn lemma_triangle_stays_inside(v0: Vec3Di, v1: Vec3Di, v2: Vec3Di, pos: (int, int))
    requires
        triangle_covers(v0, v1, v2, pos),
    ensures
        between(v0.y as int, v1.y as int, pos.1) || between(v0.y as int, v2.y as int, pos.1)
            || between(v1.y as int, v2.y as int, pos.1),
        between(v0.x as int, v1.x as int, pos.0) || between(v0.x as int, v2.x as int, pos.0)
            || between(v1.x as int, v2.x as int, pos.0),
{
    let (s0, s1, s2) = sorted_by_y(v0, v1, v2);
    if pass_covers(s0, s1, s2, pos) {
        lemma_pass_stays_inside(s0, s1, s2, pos);
    }
    if pass_covers(s2, s1, s0, pos) {
        lemma_pass_stays_inside(s2, s1, s0, pos);
    }
}

/// Whether three vertices lie on one straight line of the screen.
pub open spec fn collinear(v0: Vec3Di, v1: Vec3Di, v2: Vec3Di) -> bool {
    (v1.x - v0.x) * (v2.y - v0.y) == (v2.x - v0.x) * (v1.y - v0.y)
}

/// Vertices on one line stay on one line in whatever order they are taken.
proof fn lemma_collinear_any_order(v0: Vec3Di, v1: Vec3Di, v2: Vec3Di)
    requires
        collinear(v0, v1, v2),
    ensures
        collinear(v0, v2, v1),
        collinear(v1, v0, v2),
        collinear(v1, v2, v0),
        collinear(v2, v0, v1),
        collinear(v2, v1, v0),
{
    let (x0, y0) = (v0.x as int, v0.y as int);
    let (x1, y1) = (v1.x as int, v1.y as int);
    let (x2, y2) = (v2.x as int, v2.y as int);
    assert((x1 - x0) * (y2 - y0) == (x2 - x0) * (y1 - y0));
    assert((x2 - x0) * (y1 - y0) == (x1 - x0) * (y2 - y0));
    assert((x0 - x1) * (y2 - y1) == (x2 - x1) * (y0 - y1)) by (nonlinear_arith)
        requires
            (x1 - x0) * (y2 - y0) == (x2 - x0) * (y1 - y0),
    ;
    assert((x2 - x1) * (y0 - y1) == (x0 - x1) * (y2 - y1)) by (nonlinear_arith)
        requires
            (x1 - x0) * (y2 - y0) == (x2 - x0) * (y1 - y0),
    ;
    assert((x0 - x2) * (y1 - y2) == (x1 - x2) * (y0 - y2)) by (nonlinear_arith)
        requires
            (x1 - x0) * (y2 - y0) == (x2 - x0) * (y1 - y0),
    ;
    assert((x1 - x2) * (y0 - y2) == (x0 - x2) * (y1 - y2)) by (nonlinear_arith)
        requires
            (x1 - x0) * (y2 - y0) == (x2 - x0) * (y1 - y0),
    ;
}

/// In a sub-triangle whose vertices lie on one line, the two edges cross
/// every row at the same column, so a covered position lies on the edge.
proof fn lemma_collinear_pass(p: Vec3Di, q: Vec3Di, r: Vec3Di, pos: (int, int))
    requires
        collinear(p, q, r),
        r.y != p.y,
        pass_covers(p, q, r, pos),
    ensures
        edge_x(p, q, pos.1) == edge_x(p, r, pos.1),
        pos.0 == edge_x(p, r, pos.1),
{
    let t = pos.1 - p.y;
    let (qx, qy) = (q.x - p.x, q.y - p.y);
    let (rx, ry) = (r.x - p.x, r.y - p.y);
    assert((qx * t) * ry == (rx * t) * qy) by (nonlinear_arith)
        requires
            qx * ry == rx * qy,
    ;
    lemma_equal_fractions(qx * t, qy, rx * t, ry);
}

/// A triangle whose vertices lie on one line has no interior: every pixel
/// it draws lies on its long edge, where that edge crosses the pixel's row.
/// If the vertices are level with each other, it draws nothing at all.
pub proof fn lemma_collinear_triangle_has_no_interior(
    v0: Vec3Di,
    v1: Vec3Di,
    v2: Vec3Di,
    pos: (int, int),
)
    requires
        collinear(v0, v1, v2),
        triangle_covers(v0, v1, v2, pos),
    ensures
        ({
            let (s0, s1, s2) = sorted_by_y(v0, v1, v2);
            &&& s0.y < s2.y
            &&& pass_covers(s0, s1, s2, pos) ==> pos.0 == edge_x(s0, s2, pos.1)
            &&& pass_covers(s2, s1, s0, pos) ==> pos.0 == edge_x(s2, s0, pos.1)
        }),
{
    let (s0, s1, s2) = sorted_by_y(v0, v1, v2);
    lemma_collinear_any_order(v0, v1, v2);
    assert(collinear(s0, s1, s2));
    lemma_collinear_any_order(s0, s1, s2);
    if pass_covers(s0, s1, s2, pos) {
        lemma_collinear_pass(s0, s1, s2, pos);
    }
    if pass_covers(s2, s1, s0, pos) {
        lemma_collinear_pass(s2, s1, s0, pos);
    }
}

} // verus!
