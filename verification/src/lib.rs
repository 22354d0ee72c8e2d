//! A minimal software rasterizer: vector math, a mesh reader for a subset of
//! the Wavefront OBJ format, and scanline drawing of lines and depth-tested
//! triangles onto an RGB canvas.

pub mod bounds;
pub mod canvas;
pub mod depth;
pub mod facet;
pub mod fill;
pub mod geometry;
pub mod line;
pub mod obj;
pub mod painting;
pub mod polygon;
pub mod scan;
pub mod scene;
pub mod token;
pub mod triangle;
