//! The depth buffer: one signed depth per screen pixel.
//!
//! A fresh buffer holds the lowest depth everywhere, meaning that no surface
//! has been seen. Drawing only ever raises a cell, so each cell ends up with
//! the depth of the nearest surface (the one with the largest `z`) drawn at
//! its pixel.

use crate::canvas::grid;
use vstd::prelude::*;

verus! {

/// The depth of a cell at which no surface has been drawn.
pub const NO_SURFACE: i32 = i32::MIN;

/// A grid of depths, addressed like the canvas it accompanies.
pub struct DepthBuffer {
    columns: Vec<Vec<i32>>,
    height: usize,
}

/// Whether a surface at depth `z` is nearer than what a cell has `stored`.
pub open spec fn is_nearer(stored: int, z: int) -> bool {
    stored < z
}

/// What a cell holds after a surface at depth `z` was tested against it.
pub open spec fn raised(stored: int, z: int) -> int {
    if is_nearer(stored, z) {
        z
    } else {
        stored
    }
}

impl DepthBuffer {
    /// Every column has the height of the buffer.
    #[verifier::type_invariant]
    spec fn wf(&self) -> bool {
        forall|x: int| 0 <= x < self.columns.len() ==> (#[trigger] self.columns[x]).len() == self.height
    }

    /// Number of columns.
    pub closed spec fn spec_width(&self) -> nat {
        self.columns.len() as nat
    }

    /// Number of rows.
    pub closed spec fn spec_height(&self) -> nat {
        self.height as nat
    }

    /// The depth stored for pixel `(x, y)`.
    pub closed spec fn depth_at(&self, x: int, y: int) -> int {
        self.columns[x][y] as int
    }

    /// The depth stored for each pixel.
    pub open spec fn depths(&self) -> Map<(int, int), int> {
        Map::new(
            |p: (int, int)| grid(self.spec_width(), self.spec_height()).contains(p),
            |p: (int, int)| self.depth_at(p.0, p.1),
        )
    }

    /// A buffer of the given size in which no surface has been seen.
    pub fn new(width: usize, height: usize) -> (buffer: DepthBuffer)
        ensures
            buffer.spec_width() == width,
            buffer.spec_height() == height,
            forall|x: int, y: int|
                0 <= x < width && 0 <= y < height ==> #[trigger] buffer.depth_at(x, y)
                    == NO_SURFACE,
    {
        let mut columns: Vec<Vec<i32>> = Vec::new();
        let mut x: usize = 0;
        while x < width
            invariant
                x <= width,
                columns.len() == x,
                forall|i: int| 0 <= i < x ==> (#[trigger] columns[i]).len() == height,
                forall|i: int, j: int|
                    0 <= i < x && 0 <= j < height ==> (#[trigger] columns[i][j]) == NO_SURFACE,
            decreases width - x,
        {
            let mut column: Vec<i32> = Vec::new();
            let mut y: usize = 0;
            while y < height
                invariant
                    y <= height,
                    column.len() == y,
                    forall|j: int| 0 <= j < y ==> (#[trigger] column[j]) == NO_SURFACE,
                decreases height - y,
            {
                column.push(NO_SURFACE);
                y = y + 1;
            }
            columns.push(column);
            x = x + 1;
        }
        DepthBuffer { columns, height }
    }

    /// Number of columns.
    pub fn width(&self) -> (w: usize)
        ensures
            w == self.spec_width(),
    {
        self.columns.len()
    }

    /// Number of rows.
    pub fn height(&self) -> (h: usize)
        ensures
            h == self.spec_height(),
    {
        self.height
    }

    /// The depth stored for pixel `(x, y)`.
    pub fn get(&self, x: usize, y: usize) -> (z: i32)
        requires
            x < self.spec_width(),
            y < self.spec_height(),
        ensures
            z == self.depth_at(x as int, y as int),
    {
        proof {
            use_type_invariant(self);
        }
        self.columns[x][y]
    }

    /// Tests a surface at depth `z` against the cell of pixel `(x, y)`: where
    /// the surface is nearer, the cell is raised to `z` and `true` comes
    /// back; otherwise nothing changes.
    pub fn raise(&mut self, x: usize, y: usize, z: i32) -> (nearer: bool)
        requires
            x < old(self).spec_width(),
            y < old(self).spec_height(),
        ensures
            final(self).spec_width() == old(self).spec_width(),
            final(self).spec_height() == old(self).spec_height(),
            nearer == is_nearer(old(self).depth_at(x as int, y as int), z as int),
            final(self).depths() == old(self).depths().insert(
                (x as int, y as int),
                raised(old(self).depth_at(x as int, y as int), z as int),
            ),
    {
        proof {
            use_type_invariant(&*self);
        }
        if self.columns[x][y] < z {
            // the columns are taken out while one of them is written to
            let mut columns: Vec<Vec<i32>> = Vec::new();
            std::mem::swap(&mut self.columns, &mut columns);
            columns[x][y] = z;
            self.columns = columns;
            assert(self.depths() =~= old(self).depths().insert((x as int, y as int), z as int));
            true
        } else {
            assert(self.depths() =~= old(self).depths().insert(
                (x as int, y as int),
                old(self).depth_at(x as int, y as int),
            ));
            false
        }
    }
}

} // verus!
