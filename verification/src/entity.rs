//! A uniquely identified body wrapping a state, with the transient list of
//! influences attached to it during one simulation step.

use vstd::prelude::*;
use crate::rational::{Rat, RatV, rat_div_v, rat_mul_v, rat_new_v};
use crate::sqrt::{rat_sqrt, rat_sqrt_v};
use crate::state::{State, StateV, state_add_v, state_evolve_v, state_sub_v};
use crate::state_influence::{InfluenceV, StateInfluence};
use crate::vector::{Vec3, VecV, vec_dot_v, vec_norm2_v, vec_scale_v, vec_sub_v};

verus! {

/// Mathematical value of an entity.
pub struct EntityV {
    pub identifier: Seq<char>,
    pub state: StateV,
    pub influences: Seq<InfluenceV>,
}

/// The state obtained by overlaying the given influences onto `s` in order.
pub open spec fn overlay_add_v(s: StateV, infs: Seq<InfluenceV>) -> StateV
    decreases infs.len(),
{
    if infs.len() == 0 {
        s
    } else {
        state_add_v(overlay_add_v(s, infs.drop_last()), infs.last().state_change)
    }
}

/// The state obtained by removing the given influences from `s` in order.
pub open spec fn overlay_sub_v(s: StateV, infs: Seq<InfluenceV>) -> StateV
    decreases infs.len(),
{
    if infs.len() == 0 {
        s
    } else {
        state_sub_v(overlay_sub_v(s, infs.drop_last()), infs.last().state_change)
    }
}

/// The momentum `mass * velocity` of a state.
pub open spec fn momentum_v(s: StateV) -> VecV {
    vec_scale_v(s.velocity, s.mass)
}

/// The kinetic energy `mass * |velocity|^2 / 2` of a state.
pub open spec fn kinetic_energy_v(s: StateV) -> RatV {
    rat_div_v(rat_mul_v(s.mass, vec_dot_v(s.velocity, s.velocity)), rat_new_v(2, 1))
}

/// The gravitational potential energy of `a` in the field of `b`: the
/// magnitude of the pull times the separation distance.
pub open spec fn potential_energy_v(a: StateV, b: StateV) -> RatV {
    rat_mul_v(
        rat_sqrt_v(vec_norm2_v(crate::geometry::gravity_pull_v(b, a))),
        rat_sqrt_v(vec_norm2_v(vec_sub_v(a.location, b.location))),
    )
}

/// The views of a borrowed entity list.
pub open spec fn entity_views(s: Seq<&Entity>) -> Seq<EntityV> {
    s.map_values(|e: &Entity| e@)
}

/// The views of an owned entity list.
pub open spec fn world_views(s: Seq<Entity>) -> Seq<EntityV> {
    s.map_values(|e: Entity| e@)
}

pub struct Entity {
    identifier: &'static str,
    state: State,
    influences: Vec<StateInfluence>,
}

impl View for Entity {
    type V = EntityV;

    closed spec fn view(&self) -> EntityV {
        EntityV {
            identifier: self.identifier@,
            state: self.state@,
            influences: self.influences@.map_values(|inf: StateInfluence| inf@),
        }
    }
}

impl Entity {
    pub fn new(identifier: &'static str, state: State) -> (e: Entity)
        ensures
            e@ == (EntityV {
                identifier: identifier@,
                state: state@,
                influences: Seq::<InfluenceV>::empty(),
            }),
    {
        let e = Entity { identifier, state, influences: Vec::new() };
        proof {
            assert(e@.influences =~= Seq::<InfluenceV>::empty());
        }
        e
    }

    pub fn get_identity(&self) -> (r: &'static str)
        ensures
            r@ == self@.identifier,
    {
        self.identifier
    }

    pub fn get_state(&self) -> (s: &State)
        ensures
            s@ == self@.state,
    {
        &self.state
    }

    /// The momentum `mass * velocity` of this body.
    pub fn get_momentum(&self) -> (m: Vec3)
        ensures
            m@ == momentum_v(self@.state),
    {
        self.state.get_velocity().scale(&self.state.get_mass())
    }

    /// The kinetic energy `mass * |velocity|^2 / 2` of this body.
    pub fn get_kinetic_energy(&self) -> (k: Rat)
        ensures
            k@ == kinetic_energy_v(self@.state),
    {
        let v = self.state.get_velocity();
        self.state.get_mass().mul(&v.dot(&v)).div(&Rat::from_int(2))
    }

    /// The gravitational potential energy of this body in the field of
    /// `other`; see [`potential_energy_v`].
    pub fn get_potential_energy(&self, other: &Entity) -> (p: Rat)
        ensures
            p@ == potential_energy_v(self@.state, other@.state),
    {
        let rel = self.state.get_location().sub(&other.get_state().get_location());
        let distance = rat_sqrt(&rel.norm2());
        let pull = crate::geometry::get_gravity_pull(other, self);
        let force = rat_sqrt(&pull.norm2());
        force.mul(&distance)
    }

    /// Overlay every attached influence onto the state, then advance the
    /// state by `elapsed_time`.
    pub fn evolve(&mut self, elapsed_time: &Rat)
        ensures
            final(self)@.identifier == old(self)@.identifier,
            final(self)@.influences == old(self)@.influences,
            final(self)@.state == state_evolve_v(
                overlay_add_v(old(self)@.state, old(self)@.influences),
                elapsed_time@,
            ),
    {
        let n = self.influences.len();
        let mut i: usize = 0;
        while i < n
            invariant
                n == self.influences.len(),
                0 <= i <= n,
                self.identifier == old(self).identifier,
                self.influences == old(self).influences,
                self.state@ == overlay_add_v(
                    old(self)@.state,
                    old(self)@.influences.subrange(0, i as int),
                ),
            decreases n - i,
        {
            proof {
                let pre = old(self)@.influences.subrange(0, i as int);
                let post = old(self)@.influences.subrange(0, i as int + 1);
                assert(post.drop_last() =~= pre);
                assert(post.last() == old(self)@.influences[i as int]);
            }
            self.state = self.state.add(&self.influences[i].get_state_change());
            i = i + 1;
        }
        proof {
            assert(old(self)@.influences.subrange(0, n as int) =~= old(self)@.influences);
        }
        self.state.evolve(elapsed_time);
    }

    /// Attach one influence for the current step.
    pub fn add_influence(&mut self, influence: &StateInfluence)
        ensures
            final(self)@.identifier == old(self)@.identifier,
            final(self)@.state == old(self)@.state,
            final(self)@.influences == old(self)@.influences.push(influence@),
    {
        self.influences.push(*influence);
        proof {
            assert(self@.influences =~= old(self)@.influences.push(influence@));
        }
    }

    /// Remove every attached influence from the state again and clear the
    /// transient list, restoring the pre-step baseline.
    pub fn remove_influences(&mut self)
        ensures
            final(self)@.identifier == old(self)@.identifier,
            final(self)@.influences == Seq::<InfluenceV>::empty(),
            final(self)@.state == overlay_sub_v(old(self)@.state, old(self)@.influences),
    {
        let n = self.influences.len();
        let mut i: usize = 0;
        while i < n
            invariant
                n == self.influences.len(),
                0 <= i <= n,
                self.identifier == old(self).identifier,
                self.influences == old(self).influences,
                self.state@ == overlay_sub_v(
                    old(self)@.state,
                    old(self)@.influences.subrange(0, i as int),
                ),
            decreases n - i,
        {
            proof {
                let pre = old(self)@.influences.subrange(0, i as int);
                let post = old(self)@.influences.subrange(0, i as int + 1);
                assert(post.drop_last() =~= pre);
                assert(post.last() == old(self)@.influences[i as int]);
            }
            self.state = self.state.sub(&self.influences[i].get_state_change());
            i = i + 1;
        }
        proof {
            assert(old(self)@.influences.subrange(0, n as int) =~= old(self)@.influences);
        }
        self.influences = Vec::new();
        proof {
            assert(self@.influences =~= Seq::<InfluenceV>::empty());
        }
    }
}

} // verus!
