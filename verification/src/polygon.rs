//! Polygons, drawn as fans of triangles around their first corner.
//!
//! A polygon of `n` corners is cut into the `n - 2` triangles
//! `(c0, c1, c2)`, `(c0, c2, c3)`, and so on, all drawn in one colour. This
//! fills the polygon where it is convex and flat.

use crate::canvas::Canvas;
use crate::canvas::Color;
use crate::depth::DepthBuffer;
use crate::geometry::Vec3Di;
use crate::painting::Painting;
use crate::triangle::triangle_depths;
use crate::triangle::triangle_pixels;
use vstd::prelude::*;

verus! {

/// The triangles of the fan that cuts up a polygon: its first corner with
/// each pair of neighbours among the others. Fewer than three corners give
/// no triangle.
pub open spec fn fan_of<A>(face: Seq<A>) -> Seq<(A, A, A)> {
    if face.len() < 3 {
        Seq::empty()
    } else {
        Seq::new((face.len() - 2) as nat, |i: int| (face[0], face[i + 1], face[i + 2]))
    }
}

/// The depths after `triangles` were drawn one after the other.
pub open spec fn drawn_depths(
    depths: Map<(int, int), int>,
    triangles: Seq<(Vec3Di, Vec3Di, Vec3Di)>,
) -> Map<(int, int), int>
    decreases triangles.len(),
{
    if triangles.len() == 0 {
        depths
    } else {
        let t = triangles.last();
        triangle_depths(drawn_depths(depths, triangles.drop_last()), t.0, t.1, t.2)
    }
}

/// The pixels after `triangles` were drawn one after the other in `color`
/// against `depths`.
pub open spec fn drawn_pixels(
    pixels: Map<(int, int), Color>,
    depths: Map<(int, int), int>,
    triangles: Seq<(Vec3Di, Vec3Di, Vec3Di)>,
    color: Color,
) -> Map<(int, int), Color>
    decreases triangles.len(),
{
    if triangles.len() == 0 {
        pixels
    } else {
        let t = triangles.last();
        triangle_pixels(
            drawn_pixels(pixels, depths, triangles.drop_last(), color),
            drawn_depths(depths, triangles.drop_last()),
            t.0,
            t.1,
            t.2,
            color,
        )
    }
}

/// Whether all of `corners` lie on the canvas.
pub open spec fn all_on(canvas: &Canvas, corners: Seq<Vec3Di>) -> bool {
    forall|i: int|
        0 <= i < corners.len() ==> canvas.holds(
            (#[trigger] corners[i]).x as int,
            corners[i].y as int,
        )
}

/// Cuts a polygon into the triangles of a fan around its first corner.
pub fn fan_triangles<A: Copy>(face: &Vec<A>) -> (triangles: Vec<(A, A, A)>)
    ensures
        triangles@ == fan_of(face@),
{
    let mut triangles: Vec<(A, A, A)> = Vec::new();
    if face.len() < 3 {
        proof {
            assert(triangles@ =~= fan_of(face@));
        }
        return triangles;
    }
    let mut i: usize = 1;
    while i < face.len() - 1
        invariant
            face.len() >= 3,
            1 <= i <= face.len() - 1,
            triangles.len() == i - 1,
            forall|k: int|
                0 <= k < i - 1 ==> #[trigger] triangles[k] == (face[0], face[k + 1], face[k + 2]),
        decreases face.len() - i,
    {
        triangles.push((face[0], face[i], face[i + 1]));
        i = i + 1;
    }
    proof {
        assert(triangles@ =~= fan_of(face@));
    }
    triangles
}

/// A polygon of `n` corners, three or more, is cut into `n - 2` triangles
/// that all share its first corner.
pub proof fn lemma_fan_size<A>(face: Seq<A>)
    requires
        face.len() >= 3,
    ensures
        fan_of(face).len() == face.len() - 2,
        forall|i: int| 0 <= i < fan_of(face).len() ==> (#[trigger] fan_of(face)[i]).0 == face[0],
{
}

/// Draws the polygon with the given corners, all of them on the canvas, in
/// `color`: the triangles of its fan, in their order, each depth-tested
/// against `zbuffer`.
pub fn draw_polygon(
    canvas: &mut Canvas,
    corners: &Vec<Vec3Di>,
    color: Color,
    zbuffer: &mut DepthBuffer,
)
    requires
        all_on(old(canvas), corners@),
        old(canvas).fits(old(zbuffer)),
    ensures
        final(canvas).extent() == old(canvas).extent(),
        final(canvas).fits(final(zbuffer)),
        final(zbuffer).depths() == drawn_depths(old(zbuffer).depths(), fan_of(corners@)),
        final(canvas).surface() == drawn_pixels(
            old(canvas).surface(),
            old(zbuffer).depths(),
            fan_of(corners@),
            color,
        ),
{
    let ghost depths_before = zbuffer.depths();
    let ghost pixels_before = canvas.surface();
    let ghost fan = fan_of(corners@);
    if corners.len() < 3 {
        return ;
    }
    let mut i: usize = 1;
    proof {
        assert(fan.take(0) =~= Seq::<(Vec3Di, Vec3Di, Vec3Di)>::empty());
    }
    while i < corners.len() - 1
        invariant
            corners.len() >= 3,
            1 <= i <= corners.len() - 1,
            fan == fan_of(corners@),
            fan.len() == corners.len() - 2,
            all_on(canvas, corners@),
            canvas.extent() == old(canvas).extent(),
            canvas.fits(zbuffer),
            zbuffer.depths() == drawn_depths(depths_before, fan.take(i - 1)),
            canvas.surface() == drawn_pixels(pixels_before, depths_before, fan.take(i - 1), color),
        decreases corners.len() - i,
    {
        let a = corners[0];
        let b = corners[i];
        let c = corners[i + 1];
        proof {
            assert(fan.take(i as int).drop_last() =~= fan.take(i - 1));
            assert(fan.take(i as int).last() == (a, b, c));
        }
        canvas.triangle(a, b, c, color, zbuffer);
        i = i + 1;
    }
    proof {
        assert(fan.take(i - 1) =~= fan);
    }
}

/// Draws the polygon if all its corners lie on the canvas and `zbuffer` has
/// the size of the canvas, and says whether it did. Otherwise canvas and
/// buffer are left as they were.
pub fn try_polygon(
    canvas: &mut Canvas,
    corners: &Vec<Vec3Di>,
    color: Color,
    zbuffer: &mut DepthBuffer,
) -> (drawn: bool)
    ensures
        drawn == (all_on(old(canvas), corners@) && old(canvas).fits(old(zbuffer))),
        final(canvas).extent() == old(canvas).extent(),
        final(zbuffer).spec_width() == old(zbuffer).spec_width(),
        final(zbuffer).spec_height() == old(zbuffer).spec_height(),
        final(zbuffer).depths() == if drawn {
            drawn_depths(old(zbuffer).depths(), fan_of(corners@))
        } else {
            old(zbuffer).depths()
        },
        final(canvas).surface() == if drawn {
            drawn_pixels(old(canvas).surface(), old(zbuffer).depths(), fan_of(corners@), color)
        } else {
            old(canvas).surface()
        },
{
    if zbuffer.width() != canvas.width() as usize || zbuffer.height() != canvas.height() as usize {
        return false;
    }
    let mut i: usize = 0;
    while i < corners.len()
        invariant
            i <= corners.len(),
            forall|k: int|
                0 <= k < i ==> canvas.holds((#[trigger] corners[k]).x as int, corners[k].y as int),
        decreases corners.len() - i,
    {
        if !canvas.has_point(corners[i].x, corners[i].y) {
            return false;
        }
        i = i + 1;
    }
    draw_polygon(canvas, corners, color, zbuffer);
    true
}

} // verus!
