//! Preparing a mesh for drawing: its bounding box, and whether its faces
//! name vertices that it has.

use crate::bounds::greater;
use crate::bounds::lesser;
use crate::geometry::Vec3D;
use crate::obj::Model;
use vstd::prelude::*;
use vstd::std_specs::cmp::PartialOrdIs;
use vstd::std_specs::cmp::PartialOrdSpec;

verus! {

/// Why a mesh cannot be fitted to a canvas.
#[derive(Debug, Copy, Clone, PartialEq, Eq, Structural)]
pub enum SceneError {
    /// The mesh has no vertex.
    NoVertices,
    /// The bounding box has no width, so that no scale fits it to a canvas.
    DegenerateBounds,
}

/// The component-wise minimum of `verts`, of which there is at least one.
pub open spec fn lowest<T: PartialOrd>(verts: Seq<Vec3D<T>>) -> Vec3D<T>
    decreases verts.len(),
{
    if verts.len() <= 1 {
        verts[0]
    } else {
        let before = lowest(verts.drop_last());
        let v = verts.last();
        Vec3D { x: lesser(v.x, before.x), y: lesser(v.y, before.y), z: lesser(v.z, before.z) }
    }
}

/// The component-wise maximum of `verts`, of which there is at least one.
pub open spec fn highest<T: PartialOrd>(verts: Seq<Vec3D<T>>) -> Vec3D<T>
    decreases verts.len(),
{
    if verts.len() <= 1 {
        verts[0]
    } else {
        let before = highest(verts.drop_last());
        let v = verts.last();
        Vec3D { x: greater(v.x, before.x), y: greater(v.y, before.y), z: greater(v.z, before.z) }
    }
}

/// The bounding box of `verts`, as its lowest and its highest corner. There
/// is none where there is no vertex, and none where the box has no width:
/// where its lowest `x` is not below its highest.
pub open spec fn bounds_of<T: PartialOrd>(verts: Seq<Vec3D<T>>) -> Result<
    (Vec3D<T>, Vec3D<T>),
    SceneError,
> {
    if verts.len() == 0 {
        Err(SceneError::NoVertices)
    } else if lowest(verts).x.is_lt(&highest(verts).x) {
        Ok((lowest(verts), highest(verts)))
    } else {
        Err(SceneError::DegenerateBounds)
    }
}

/// The first `n` of `verts`.
pub open spec fn first_of<T>(verts: Seq<Vec3D<T>>, n: usize) -> Seq<Vec3D<T>> {
    verts.take(n as int)
}

impl<T> Model<T> {
    /// Whether every face names vertices that the mesh has.
    pub open spec fn faces_in_range(&self) -> bool {
        forall|f: int, c: int|
            0 <= f < self.faces.len() && 0 <= c < self.faces[f].len() ==> (#[trigger] self.faces[f][c])
                < self.verts.len()
    }

    /// Tests whether every face names vertices that the mesh has.
    pub fn has_faces_in_range(&self) -> (r: bool)
        ensures
            r == self.faces_in_range(),
    {
        let count = self.verts.len();
        let mut f: usize = 0;
        while f < self.faces.len()
            invariant
                f <= self.faces.len(),
                count == self.verts.len(),
                forall|g: int, c: int|
                    0 <= g < f && 0 <= c < self.faces[g].len() ==> (#[trigger] self.faces[g][c])
                        < count,
            decreases self.faces.len() - f,
        {
            let mut c: usize = 0;
            while c < self.faces[f].len()
                invariant
                    f < self.faces.len(),
                    c <= self.faces[f as int].len(),
                    count == self.verts.len(),
                    forall|d: int| 0 <= d < c ==> (#[trigger] self.faces[f as int][d]) < count,
                decreases self.faces[f as int].len() - c,
            {
                if self.faces[f][c] >= count {
                    assert(!(self.faces[f as int][c as int] < self.verts.len()));
                    return false;
                }
                c = c + 1;
            }
            f = f + 1;
        }
        true
    }
}

impl<T: PartialOrd + Copy> Model<T> {
    /// The bounding box of the mesh, or the reason why it has none that
    /// could be fitted to a canvas.
    pub fn bounds(&self) -> (r: Result<(Vec3D<T>, Vec3D<T>), SceneError>)
        ensures
            self.verts.len() == 0 <==> r == Err::<(Vec3D<T>, Vec3D<T>), SceneError>(
                SceneError::NoVertices,
            ),
            T::obeys_partial_cmp_spec() ==> r == bounds_of(self.verts@),
    {
        if self.verts.len() == 0 {
            return Err(SceneError::NoVertices);
        }
        let mut low: Vec3D<T> = self.verts[0];
        let mut high: Vec3D<T> = self.verts[0];
        let mut i: usize = 1;
        proof {
            assert(first_of(self.verts@, i).len() == 1);
        }
        while i < self.verts.len()
            invariant
                1 <= i <= self.verts.len(),
                T::obeys_partial_cmp_spec() ==> low == lowest(first_of(self.verts@, i)),
                T::obeys_partial_cmp_spec() ==> high == highest(first_of(self.verts@, i)),
            decreases self.verts.len() - i,
        {
            let v: Vec3D<T> = self.verts[i];
            let ghost before = first_of(self.verts@, i);
            low.min_bound(v);
            high.max_bound(v);
            i = i + 1;
            proof {
                assert(first_of(self.verts@, i).drop_last() =~= before);
                assert(first_of(self.verts@, i).last() == v);
            }
        }
        proof {
            assert(first_of(self.verts@, i) =~= self.verts@);
        }
        if low.x < high.x {
            Ok((low, high))
        } else {
            Err(SceneError::DegenerateBounds)
        }
    }
}

/// The bounding box of integer vertices encloses every one of them.
pub proof fn lemma_bounds_enclose(verts: Seq<Vec3D<i32>>, i: int)
    requires
        0 <= i < verts.len(),
    ensures
        lowest(verts).x <= verts[i].x <= highest(verts).x,
        lowest(verts).y <= verts[i].y <= highest(verts).y,
        lowest(verts).z <= verts[i].z <= highest(verts).z,
    decreases verts.len(),
{
    if verts.len() > 1 {
        if i < verts.len() - 1 {
            lemma_bounds_enclose(verts.drop_last(), i);
        }
    }
}

/// Where all the vertices share one `x`, so do the corners of their
/// bounding box.
proof fn lemma_shared_x(verts: Seq<Vec3D<i32>>)
    requires
        verts.len() > 0,
        forall|i: int| 0 <= i < verts.len() ==> (#[trigger] verts[i]).x == verts[0].x,
    ensures
        lowest(verts).x == verts[0].x,
        highest(verts).x == verts[0].x,
    decreases verts.len(),
{
    if verts.len() > 1 {
        let before = verts.drop_last();
        assert forall|i: int| 0 <= i < before.len() implies (#[trigger] before[i]).x
            == before[0].x by {
            assert(before[i] == verts[i]);
            assert(before[0] == verts[0]);
        }
        lemma_shared_x(before);
        assert(verts.last() == verts[verts.len() - 1]);
    }
}

/// A mesh of integer vertices that all share one `x` has no bounding box
/// that could be fitted to a canvas: it is rejected as degenerate, and no
/// scale is ever computed from its width of zero.
pub proof fn lemma_flat_mesh_is_degenerate(verts: Seq<Vec3D<i32>>)
    requires
        verts.len() > 0,
        forall|i: int| 0 <= i < verts.len() ==> (#[trigger] verts[i]).x == verts[0].x,
    ensures
        bounds_of(verts) == Err::<(Vec3D<i32>, Vec3D<i32>), SceneError>(
            SceneError::DegenerateBounds,
        ),
{
    lemma_shared_x(verts);
}

} // verus!
