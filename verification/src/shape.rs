//! The scene data model: primitive shapes, compound operations, materials,
//! per-instance transform data, and the scene snapshot consumed by the packer.
//!
//! Scalar quantities that the GPU consumes (colors, matrix entries, scale
//! factors, radii) are carried as raw 32-bit patterns.  The library never
//! computes with them — it copies, compares and routes them — except for the
//! sign bit of the scale factor, which encodes the subtraction rule: a
//! negative shape contributes the negation of its distance, and negating a
//! finite scalar flips exactly the top bit of its pattern.

use vstd::prelude::*;

verus! {

/// Capacity of the flat plane array.
pub const MAX_PLANES: u8 = 4;

/// Capacity of the flat sphere array.
pub const MAX_SPHERES: u8 = 24;

/// Capacity of the flat cube array.
pub const MAX_CUBES: u8 = 24;

/// Capacity of the flat volumetric-image array.
pub const MAX_IMAGES: u8 = 4;

/// Capacity of the volumetric texture table (distinct images per scene).
pub const MAX_TEXTURES: u8 = 2;

/// The sign bit of a 32-bit scalar pattern.
pub const SIGN_BIT: u32 = 0x8000_0000;

/// How the shapes of a compound node are combined.
#[derive(Clone, Copy, PartialEq, Eq, Structural, Debug)]
pub enum Operation {
    Union,
    Intersection,
}

/// Flat albedo material of a primitive, as three raw scalar patterns.
#[derive(Clone, Copy, PartialEq, Eq, Structural, Debug)]
pub struct Material {
    pub red_bits: u32,
    pub green_bits: u32,
    pub blue_bits: u32,
}

/// Conditioned world transform of a scene node: the entries of the inverse
/// world matrix, row by row, and the magnitude of the conservative scale
/// correction factor (the most-compressed-axis bound).  Both are produced by
/// the geometric layer from the node's world transform; the packer applies
/// the subtraction sign on top of the magnitude.
#[derive(Clone, Copy, Debug)]
pub struct Transform {
    pub inv_bits: [u32; 16],
    pub scale_bits: u32,
}

/// A primitive shape with its kind-specific parameters.  Cube extents are
/// carried as half-extents per axis, image primitives carry the identifier
/// of their baked volumetric asset.
#[derive(Clone, Copy, Debug)]
pub enum Primitive {
    Plane,
    Sphere { radius_bits: u32 },
    Cube { bounds_bits: [u32; 3] },
    Image { image: u64 },
}

/// Kind of a primitive, without its parameters.
#[derive(Clone, Copy, PartialEq, Eq, Structural, Debug)]
pub enum PrimKind {
    Plane,
    Sphere,
    Cube,
    Image,
}

/// What a scene node is: a primitive carrying a material, or a compound
/// combining its children under an operation.
#[derive(Clone, Copy, Debug)]
pub enum ShapeType {
    Primitive(Primitive, Material),
    Compound(Operation),
}

/// One node of the scene snapshot.  `children` is `None` for a childless
/// node and `Some` for a node that owns child nodes, given as indices into
/// the snapshot's node arena.
#[derive(Clone, Debug)]
pub struct Shape {
    pub shape_type: ShapeType,
    pub negative: bool,
    pub transform: Transform,
    pub children: Option<Vec<usize>>,
}

/// An immutable per-frame scene snapshot: an arena of nodes and the indices
/// of the root nodes.  Parents precede their children in the arena, which
/// rules out cycles.
#[derive(Clone, Debug)]
pub struct Scene {
    pub nodes: Vec<Shape>,
    pub roots: Vec<usize>,
}

impl Scene {
    /// Every child index points further into the arena than its parent, and
    /// every root index is in bounds.
    pub open spec fn wf(self) -> bool {
        &&& forall|i: int|
            0 <= i < self.nodes@.len() ==> #[trigger] node_children_wf(self, i)
        &&& forall|j: int|
            0 <= j < self.roots@.len() ==> (#[trigger] self.roots@[j]) < self.nodes@.len()
    }
}

/// The child list of node `i` stays within the arena and past `i`.
pub open spec fn node_children_wf(s: Scene, i: int) -> bool {
    match s.nodes@[i].children {
        Some(cs) => forall|j: int|
            0 <= j < cs@.len() ==> i < (#[trigger] cs@[j]) < s.nodes@.len(),
        None => true,
    }
}

/// Kind of a primitive.
pub open spec fn kind_of(p: Primitive) -> PrimKind {
    match p {
        Primitive::Plane => PrimKind::Plane,
        Primitive::Sphere { .. } => PrimKind::Sphere,
        Primitive::Cube { .. } => PrimKind::Cube,
        Primitive::Image { .. } => PrimKind::Image,
    }
}

/// The scale factor stored for an instance: the conditioned magnitude with
/// the sign bit set when the shape is subtractive.
pub open spec fn signed_scale(bits: u32, negative: bool) -> u32 {
    if negative {
        bits ^ SIGN_BIT
    } else {
        bits
    }
}

/// Applies the subtraction sign to a conditioned scale magnitude.
///
/// Negating a finite scalar flips exactly the sign bit of its pattern, so
/// downstream evaluation of a subtractive shape sees the negated factor.
pub fn apply_negative(bits: u32, negative: bool) -> (r: u32)
    ensures
        r == signed_scale(bits, negative),
{
    if negative {
        bits ^ SIGN_BIT
    } else {
        bits
    }
}

/// Picks the smallest of the three per-axis compression bounds.
///
/// The axis bounds are patterns of non-negative finite scalars, for which
/// unsigned pattern order coincides with numeric order, so the smallest
/// pattern is the most-compressed axis: the conservative correction factor.
pub fn min_axis_bits(x_bits: u32, y_bits: u32, z_bits: u32) -> (r: u32)
    ensures
        r == min_scale_bits(x_bits, y_bits, z_bits),
{
    let xy: u32 = if x_bits <= y_bits {
        x_bits
    } else {
        y_bits
    };
    if xy <= z_bits {
        xy
    } else {
        z_bits
    }
}

/// The smallest of three patterns in unsigned order.
pub open spec fn min_scale_bits(x: u32, y: u32, z: u32) -> u32 {
    let xy = if x <= y {
        x
    } else {
        y
    };
    if xy <= z {
        xy
    } else {
        z
    }
}

} // verus!
