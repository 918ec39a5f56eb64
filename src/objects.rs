//! Scene geometry as the library holds it, and the arena handles that tie a
//! record to its body and collider in the physics engine.
use vstd::prelude::*;

verus! {

/// A slot of one of the physics engine's arenas: its index and the
/// generation that tells a live slot from a reused one. A handle is only
/// meaningful inside the world that issued it.
#[derive(Clone, Copy, Debug, PartialEq, Eq, Structural)]
pub struct Handle {
    pub index: u32,
    pub generation: u32,
}

impl Handle {
    pub fn new(index: u32, generation: u32) -> (r: Self)
        ensures
            r.index == index,
            r.generation == generation,
    {
        Handle { index, generation }
    }
}

/// A box given by its three half-extents.
#[derive(Clone, Copy, Debug, PartialEq, Eq, Structural)]
pub struct Cuboid {
    pub hx: u32,
    pub hy: u32,
    pub hz: u32,
}

impl Cuboid {
    pub fn new(hx: u32, hy: u32, hz: u32) -> (r: Self)
        ensures
            r == (Cuboid { hx, hy, hz }),
    {
        Cuboid { hx, hy, hz }
    }
}

#[derive(Clone, Copy, Debug, PartialEq, Eq, Structural)]
pub struct Sphere {
    pub radius: u32,
}

impl Sphere {
    pub fn new(radius: u32) -> (r: Self)
        ensures
            r == (Sphere { radius }),
    {
        Sphere { radius }
    }
}

/// The collision shape of a scene object. The last three are built from the
/// object's mesh: its convex hull, or a convex decomposition that is solid or
/// a sensor.
#[derive(Clone, Copy, Debug, PartialEq, Eq, Structural)]
pub enum Shape {
    CUBOID(Cuboid),
    SPHERE(Sphere),
    CONVEX,
    MULTI,
    SensorMulti,
}

impl Shape {
    pub fn cuboid(&self) -> (r: Cuboid)
        requires
            self is CUBOID,
        ensures
            *self == Shape::CUBOID(r),
    {
        match self {
            Shape::CUBOID(c) => *c,
            _ => Cuboid { hx: 0, hy: 0, hz: 0 },
        }
    }

    pub fn sphere(&self) -> (r: Sphere)
        requires
            self is SPHERE,
        ensures
            *self == Shape::SPHERE(r),
    {
        match self {
            Shape::SPHERE(s) => *s,
            _ => Sphere { radius: 0 },
        }
    }
}

} // verus!
