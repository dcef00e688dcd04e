//! The gravity interaction variant.  It takes part in the energy
//! diagnostics, but it is inert in the propagation graph: its seed and
//! reaction lists are empty, so no gravitational force is ever applied to
//! a body through the influence mechanism.

use vstd::prelude::*;
use crate::entity::Entity;
use crate::rational::Rat;
use crate::state_influence::{InfluenceV, StateInfluence, influence_views};

verus! {

/// The stable name of the gravity interaction.
pub open spec fn gravity_id_v() -> Seq<char> {
    "Gravity"@
}

/// The gravity interaction variant.
#[derive(Clone, Copy, PartialEq, Eq, Structural, Debug)]
pub struct Gravity;

impl Gravity {
    /// The stable name of this interaction.
    pub fn get_identifier(&self) -> (r: &'static str)
        ensures
            r@ == gravity_id_v(),
    {
        "Gravity"
    }

    /// Every body is a gravity neighbour of every other.
    pub fn is_neighbor(&self, _transmitter: &Entity, _receiver: &Entity) -> (r: bool)
        ensures
            r == true,
    {
        true
    }

    /// Gravity seeds no influences.
    pub fn init(&self, _source: &Entity, _neighbors: Vec<&Entity>, _step_size: &Rat) -> (r: Vec<
        StateInfluence,
    >)
        ensures
            influence_views(r@) == Seq::<InfluenceV>::empty(),
    {
        let r: Vec<StateInfluence> = Vec::new();
        proof {
            assert(influence_views(r@) =~= Seq::<InfluenceV>::empty());
        }
        r
    }

    /// Gravity forwards no influences.
    pub fn react(
        &self,
        _reactor: &Entity,
        _neighbors: Vec<&Entity>,
        _influence: StateInfluence,
        _step_size: &Rat,
    ) -> (r: Vec<StateInfluence>)
        ensures
            influence_views(r@) == Seq::<InfluenceV>::empty(),
    {
        let r: Vec<StateInfluence> = Vec::new();
        proof {
            assert(influence_views(r@) =~= Seq::<InfluenceV>::empty());
        }
        r
    }
}

} // verus!
