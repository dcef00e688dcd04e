//! Body geometry: a sphere with a rational radius, or no shape at all
//! (used by pure force-carrier states).

use vstd::prelude::*;
use crate::rational::{Rat, RatV, rat_add_v, rat_sub_v, rat_valid};

verus! {

/// Mathematical value of a shape.
pub enum ShapeV {
    Sphere(RatV),
    Absent,
}

#[derive(Clone, Copy, PartialEq, Eq, Structural, Debug)]
pub struct Sphere {
    pub radius: Rat,
}

/// The geometry of a body: a sphere, or no shape for geometry-neutral
/// influence carriers.
#[derive(Clone, Copy, PartialEq, Eq, Structural, Debug)]
pub enum Shape {
    Sphere(Sphere),
    Absent,
}

impl View for Shape {
    type V = ShapeV;

    open spec fn view(&self) -> ShapeV {
        match self {
            Shape::Sphere(s) => ShapeV::Sphere(s.radius@),
            Shape::Absent => ShapeV::Absent,
        }
    }
}

pub open spec fn shape_is_sphere(s: ShapeV) -> bool {
    s is Sphere
}

pub open spec fn shape_radius(s: ShapeV) -> RatV {
    s->Sphere_0
}

/// A sphere with a valid, non-negative radius.
pub open spec fn shape_wf(s: ShapeV) -> bool {
    shape_is_sphere(s) && rat_valid(shape_radius(s)) && shape_radius(s).n >= 0
}

/// What [`Shape::add`] returns: radii add where both sides are spheres.
pub open spec fn shape_add_v(a: ShapeV, b: ShapeV) -> ShapeV {
    match a {
        ShapeV::Sphere(ra) => match b {
            ShapeV::Sphere(rb) => ShapeV::Sphere(rat_add_v(ra, rb)),
            ShapeV::Absent => a,
        },
        ShapeV::Absent => a,
    }
}

/// What [`Shape::sub`] returns.
pub open spec fn shape_sub_v(a: ShapeV, b: ShapeV) -> ShapeV {
    match a {
        ShapeV::Sphere(ra) => match b {
            ShapeV::Sphere(rb) => ShapeV::Sphere(rat_sub_v(ra, rb)),
            ShapeV::Absent => a,
        },
        ShapeV::Absent => b,
    }
}

impl Shape {
    /// Overlay of two shapes: sphere radii add; an absent side is neutral.
    pub fn add(&self, rhs: &Shape) -> (r: Shape)
        ensures
            r@ == shape_add_v(self@, rhs@),
    {
        match self {
            Shape::Sphere(me) => match rhs {
                Shape::Sphere(other) => Shape::Sphere(Sphere { radius: me.radius.add(&other.radius) }),
                Shape::Absent => *self,
            },
            Shape::Absent => *self,
        }
    }

    /// Removal of an overlay; the mirror image of [`Shape::add`].
    pub fn sub(&self, rhs: &Shape) -> (r: Shape)
        ensures
            r@ == shape_sub_v(self@, rhs@),
    {
        match self {
            Shape::Sphere(me) => match rhs {
                Shape::Sphere(other) => Shape::Sphere(Sphere { radius: me.radius.sub(&other.radius) }),
                Shape::Absent => *self,
            },
            Shape::Absent => *rhs,
        }
    }

    pub fn is_sphere(&self) -> (b: bool)
        ensures
            b == shape_is_sphere(self@),
    {
        match self {
            Shape::Sphere(_) => true,
            Shape::Absent => false,
        }
    }

    /// The radius of a sphere shape.
    pub fn radius(&self) -> (r: Rat)
        requires
            shape_is_sphere(self@),
        ensures
            r@ == shape_radius(self@),
    {
        match self {
            Shape::Sphere(s) => s.radius,
            Shape::Absent => Rat::from_int(0),
        }
    }
}

impl Default for Shape {
    /// The default shape is no shape.
    fn default() -> (s: Shape)
        ensures
            s@ == ShapeV::Absent,
    {
        Shape::Absent
    }
}

} // verus!
