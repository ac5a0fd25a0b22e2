//! Geometric properties of triangulated solids.
//!
//! A mesh is a triangle soup: every triangle carries its own three vertices.
//! Coordinates are fixed-point integers (a caller chooses the unit), so all
//! arithmetic here is exact: volumes and centroids come out as exact rational
//! numbers, and surface areas use a floor integer square root.
//!
//! Every function is a pure computation on caller-owned values: there is no
//! global or shared state, so independent calls are safe from any number of
//! threads.

use vstd::prelude::*;

pub mod geometry;
pub mod mesh;
pub mod stl;

verus! {

/// How a mesh computation can fail.
#[derive(Clone, Copy, Debug, PartialEq, Eq, Structural)]
pub enum MeshError {
    /// The mesh file could not be opened or read.
    IOError,
    /// The bytes could not be understood as a mesh.
    ParseError,
    /// The computation would divide by zero.
    ArithmeticError,
}

/// An exact rational quantity `num / den`.
#[derive(Clone, Copy, Debug, PartialEq, Eq, Structural)]
pub struct Ratio {
    pub num: i128,
    pub den: i128,
}

} // verus!
