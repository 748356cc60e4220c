//! Geometry primitives: vertices and lights.

use vstd::prelude::*;

use crate::math::{Mat4, Vec2i, Vec3i, gmat_identity};

verus! {

/// One mesh vertex. Immutable once uploaded to a GPU buffer.
#[derive(Clone, Copy, Debug, PartialEq, Eq, Structural)]
pub struct Vertex {
    pub position: Vec3i,
    pub normal: Vec3i,
    pub tangent: Vec3i,
    pub bitangent: Vec3i,
    pub tex_coord: Vec2i,
}

impl Vertex {
    pub fn new(position: Vec3i, normal: Vec3i, tex_coord: Vec2i) -> (r: Vertex)
        ensures
            r.position == position,
            r.normal == normal,
            r.tex_coord == tex_coord,
            r.tangent == (Vec3i { x: 0i64, y: 0i64, z: 0i64 }),
            r.bitangent == (Vec3i { x: 0i64, y: 0i64, z: 0i64 }),
    {
        Vertex {
            position,
            normal,
            tangent: Vec3i::zero(),
            bitangent: Vec3i::zero(),
            tex_coord,
        }
    }
}

impl Default for Vertex {
    /// The all-zero vertex.
    fn default() -> (r: Vertex)
        ensures
            r == (Vertex {
                position: Vec3i { x: 0i64, y: 0i64, z: 0i64 },
                normal: Vec3i { x: 0i64, y: 0i64, z: 0i64 },
                tangent: Vec3i { x: 0i64, y: 0i64, z: 0i64 },
                bitangent: Vec3i { x: 0i64, y: 0i64, z: 0i64 },
                tex_coord: Vec2i { x: 0i64, y: 0i64 },
            }),
    {
        Vertex {
            position: Vec3i::zero(),
            normal: Vec3i::zero(),
            tangent: Vec3i::zero(),
            bitangent: Vec3i::zero(),
            tex_coord: Vec2i::zero(),
        }
    }
}

/// Classification of a light source.
#[derive(Clone, Copy, Debug, PartialEq, Eq, Structural)]
pub enum LightType {
    /// Uniform base illumination; casts no shadows.
    Ambient,
    /// A sun-like light shining along a direction; its shadow frustum
    /// follows the viewer.
    Directional,
    /// A local light with a position and radius.
    Area,
}

/// A light source in the scene.
#[derive(Clone, Copy, Debug, PartialEq, Eq, Structural)]
pub struct Light {
    /// Position, or, for directional lights, the direction of travel.
    pub position: Vec3i,
    pub t: LightType,
    pub color: Vec3i,
    pub radius: i64,
    /// Projection of the light's shadow frustum.
    pub light_proj: Mat4,
}

impl Default for Light {
    /// The ambient default light: black, at the origin, identity projection.
    fn default() -> (r: Light)
        ensures
            r.t == LightType::Ambient,
            r.position == (Vec3i { x: 0i64, y: 0i64, z: 0i64 }),
            r.color == (Vec3i { x: 0i64, y: 0i64, z: 0i64 }),
            r.radius == 0i64,
            r.light_proj@ == gmat_identity(),
            r.light_proj.wf(),
    {
        Light {
            position: Vec3i::zero(),
            t: LightType::Ambient,
            color: Vec3i::zero(),
            radius: 0,
            light_proj: Mat4::identity(),
        }
    }
}

} // verus!
