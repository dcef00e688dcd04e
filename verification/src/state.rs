//! The kinematic snapshot of one body and its explicit-step integrator.

use vstd::prelude::*;
use crate::rational::{Rat, RatV, rat_add_v, rat_div_v, rat_sub_v, rat_valid};
use crate::shape::{Shape, ShapeV, shape_add_v, shape_sub_v, shape_wf};
use crate::vector::{Vec3, VecV, vec_add_v, vec_scale_v, vec_sub_v, vec_valid};

verus! {

/// Mathematical value of a state.
pub struct StateV {
    pub location: VecV,
    pub velocity: VecV,
    pub net_force: VecV,
    pub mass: RatV,
    pub shape: ShapeV,
}

/// Every quantity of the state is a real rational (no overflow poison)
/// and the mass is positive.
pub open spec fn state_numeric_wf(s: StateV) -> bool {
    &&& vec_valid(s.location)
    &&& vec_valid(s.velocity)
    &&& vec_valid(s.net_force)
    &&& rat_valid(s.mass)
    &&& s.mass.n > 0
}

/// All quantities of the state are real rationals; the mass may be zero
/// (a pure influence carrier).
pub open spec fn state_quantities_valid(s: StateV) -> bool {
    &&& vec_valid(s.location)
    &&& vec_valid(s.velocity)
    &&& vec_valid(s.net_force)
    &&& rat_valid(s.mass)
}

/// A state fit for a simulated body: every quantity is a real rational,
/// the mass is positive and the shape is a sphere.
pub open spec fn state_wf(s: StateV) -> bool {
    &&& state_numeric_wf(s)
    &&& shape_wf(s.shape)
}

/// What [`State::add`] returns: the componentwise overlay of two states.
pub open spec fn state_add_v(a: StateV, b: StateV) -> StateV {
    StateV {
        location: vec_add_v(a.location, b.location),
        velocity: vec_add_v(a.velocity, b.velocity),
        net_force: vec_add_v(a.net_force, b.net_force),
        mass: rat_add_v(a.mass, b.mass),
        shape: shape_add_v(a.shape, b.shape),
    }
}

/// What [`State::sub`] returns.
pub open spec fn state_sub_v(a: StateV, b: StateV) -> StateV {
    StateV {
        location: vec_sub_v(a.location, b.location),
        velocity: vec_sub_v(a.velocity, b.velocity),
        net_force: vec_sub_v(a.net_force, b.net_force),
        mass: rat_sub_v(a.mass, b.mass),
        shape: shape_sub_v(a.shape, b.shape),
    }
}

/// One explicit integration step: the location moves with the velocity and
/// the velocity changes with the acceleration `net_force / mass`.
pub open spec fn state_evolve_v(s: StateV, dt: RatV) -> StateV {
    StateV {
        location: vec_add_v(s.location, vec_scale_v(s.velocity, dt)),
        velocity: vec_add_v(
            s.velocity,
            vec_scale_v(
                VecV {
                    x: rat_div_v(s.net_force.x, s.mass),
                    y: rat_div_v(s.net_force.y, s.mass),
                    z: rat_div_v(s.net_force.z, s.mass),
                },
                dt,
            ),
        ),
        net_force: s.net_force,
        mass: s.mass,
        shape: s.shape,
    }
}

#[derive(Clone, Copy, PartialEq, Eq, Structural, Debug)]
pub struct State {
    location: Vec3,
    velocity: Vec3,
    net_force: Vec3,
    mass: Rat,
    shape: Shape,
}

impl View for State {
    type V = StateV;

    closed spec fn view(&self) -> StateV {
        StateV {
            location: self.location@,
            velocity: self.velocity@,
            net_force: self.net_force@,
            mass: self.mass@,
            shape: self.shape@,
        }
    }
}

impl State {
    pub fn new(location: Vec3, velocity: Vec3, net_force: Vec3, mass: Rat, shape: Shape) -> (s:
        State)
        ensures
            s@ == (StateV {
                location: location@,
                velocity: velocity@,
                net_force: net_force@,
                mass: mass@,
                shape: shape@,
            }),
    {
        State { location, velocity, net_force, mass, shape }
    }

    pub fn get_location(&self) -> (v: Vec3)
        ensures
            v@ == self@.location,
    {
        self.location
    }

    pub fn get_velocity(&self) -> (v: Vec3)
        ensures
            v@ == self@.velocity,
    {
        self.velocity
    }

    pub fn get_net_force(&self) -> (v: Vec3)
        ensures
            v@ == self@.net_force,
    {
        self.net_force
    }

    pub fn get_mass(&self) -> (m: Rat)
        ensures
            m@ == self@.mass,
    {
        self.mass
    }

    pub fn get_shape(&self) -> (s: Shape)
        ensures
            s@ == self@.shape,
    {
        self.shape
    }

    /// Advance the state by `elapsed_time`; see [`state_evolve_v`].
    /// A zero mass poisons the velocity, which a caller detects by validity.
    pub fn evolve(&mut self, elapsed_time: &Rat)
        ensures
            final(self)@ == state_evolve_v(old(self)@, elapsed_time@),
    {
        let acceleration = Vec3::new(
            self.net_force.x().div(&self.mass),
            self.net_force.y().div(&self.mass),
            self.net_force.z().div(&self.mass),
        );
        self.location = self.location.add(&self.velocity.scale(elapsed_time));
        self.velocity = self.velocity.add(&acceleration.scale(elapsed_time));
    }

    /// Overlay another state onto this one (componentwise addition).
    pub fn add(&self, rhs: &State) -> (r: State)
        ensures
            r@ == state_add_v(self@, rhs@),
    {
        State {
            location: self.location.add(&rhs.location),
            velocity: self.velocity.add(&rhs.velocity),
            net_force: self.net_force.add(&rhs.net_force),
            mass: self.mass.add(&rhs.mass),
            shape: self.shape.add(&rhs.shape),
        }
    }

    /// Remove an overlay from this state (componentwise subtraction).
    pub fn sub(&self, rhs: &State) -> (r: State)
        ensures
            r@ == state_sub_v(self@, rhs@),
    {
        State {
            location: self.location.sub(&rhs.location),
            velocity: self.velocity.sub(&rhs.velocity),
            net_force: self.net_force.sub(&rhs.net_force),
            mass: self.mass.sub(&rhs.mass),
            shape: self.shape.sub(&rhs.shape),
        }
    }
}

} // verus!
