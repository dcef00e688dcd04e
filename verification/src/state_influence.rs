//! A directed, attributable unit of state change flowing from an
//! originating body toward a receiver, possibly via intermediate
//! transmitters.

use vstd::prelude::*;
use crate::rational::{Rat, rat_zero};
use crate::shape::{Shape, ShapeV};
use crate::state::{State, StateV};
use crate::vector::{Vec3, VecV, vec_valid, vec_zero};

verus! {

/// Mathematical value of an influence.
pub struct InfluenceV {
    pub source_id: Seq<char>,
    pub transmitter_id: Seq<char>,
    pub receiver_id: Seq<char>,
    pub interaction_id: Seq<char>,
    pub state_change: StateV,
}

/// An influence has returned to the body that must apply it.
pub open spec fn influence_resolved(i: InfluenceV) -> bool {
    i.transmitter_id == i.receiver_id
}

/// The state change of a pure force influence: only the net force is set.
pub open spec fn force_change_v(force: VecV) -> StateV {
    StateV {
        location: vec_zero(),
        velocity: vec_zero(),
        net_force: force,
        mass: rat_zero(),
        shape: ShapeV::Absent,
    }
}

/// An influence that carries a real (non-poisoned) force vector.
pub open spec fn influence_wf(i: InfluenceV) -> bool {
    vec_valid(i.state_change.net_force)
}

/// The views of an influence list.
pub open spec fn influence_views(s: Seq<StateInfluence>) -> Seq<InfluenceV> {
    s.map_values(|i: StateInfluence| i@)
}

#[derive(Clone, Copy, PartialEq, Eq, Debug)]
pub struct StateInfluence {
    source_id: &'static str,
    transmitter_id: &'static str,
    receiver_id: &'static str,
    interaction_id: &'static str,
    state_change: State,
}

impl View for StateInfluence {
    type V = InfluenceV;

    closed spec fn view(&self) -> InfluenceV {
        InfluenceV {
            source_id: self.source_id@,
            transmitter_id: self.transmitter_id@,
            receiver_id: self.receiver_id@,
            interaction_id: self.interaction_id@,
            state_change: self.state_change@,
        }
    }
}

impl StateInfluence {
    pub fn new(
        source_id: &'static str,
        transmitter_id: &'static str,
        receiver_id: &'static str,
        interaction_id: &'static str,
        state_change: State,
    ) -> (r: StateInfluence)
        ensures
            r@ == (InfluenceV {
                source_id: source_id@,
                transmitter_id: transmitter_id@,
                receiver_id: receiver_id@,
                interaction_id: interaction_id@,
                state_change: state_change@,
            }),
    {
        StateInfluence { source_id, transmitter_id, receiver_id, interaction_id, state_change }
    }

    /// An influence whose state change carries only a net force.
    pub fn force_influence(
        source_id: &'static str,
        transmitter_id: &'static str,
        receiver_id: &'static str,
        interaction_id: &'static str,
        force: Vec3,
    ) -> (r: StateInfluence)
        ensures
            r@ == (InfluenceV {
                source_id: source_id@,
                transmitter_id: transmitter_id@,
                receiver_id: receiver_id@,
                interaction_id: interaction_id@,
                state_change: force_change_v(force@),
            }),
    {
        let zero_loc = Vec3::zero();
        let zero_vel = Vec3::zero();
        let zero_mass = Rat::from_int(0);
        let change = State::new(zero_loc, zero_vel, force, zero_mass, Shape::Absent);
        proof {
            assert(zero_loc@ == vec_zero());
            assert(zero_mass@ == rat_zero());
            assert(change@ == force_change_v(force@));
        }
        StateInfluence {
            source_id,
            transmitter_id,
            receiver_id,
            interaction_id,
            state_change: change,
        }
    }

    pub fn get_state_change(&self) -> (s: State)
        ensures
            s@ == self@.state_change,
    {
        self.state_change
    }

    pub fn get_source_id(&self) -> (r: &'static str)
        ensures
            r@ == self@.source_id,
    {
        self.source_id
    }

    pub fn get_transmitter_id(&self) -> (r: &'static str)
        ensures
            r@ == self@.transmitter_id,
    {
        self.transmitter_id
    }

    pub fn get_receiver_id(&self) -> (r: &'static str)
        ensures
            r@ == self@.receiver_id,
    {
        self.receiver_id
    }

    pub fn get_interaction_id(&self) -> (r: &'static str)
        ensures
            r@ == self@.interaction_id,
    {
        self.interaction_id
    }
}

} // verus!
