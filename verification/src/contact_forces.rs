//! The contact-repulsion interaction: a body under a net force pushes the
//! touching neighbours that lie in the force's way, and withdraws from
//! itself exactly what it distributed.

use vstd::prelude::*;
use crate::distribution::{
    all_wf, force_scan_v, forces_total_v, keep, keep_v, lemma_force_scan, react_out_v,
    seeds_out_v, lemma_react_out_conserves, lemma_seeds_out_conserves,
};
use crate::entity::{Entity, EntityV, entity_views};
use crate::geometry::{applies_force_in_direction, are_touching, get_force_in_direction};
use crate::rational::Rat;
use crate::shape::shape_is_sphere;
use crate::state::{State, StateV};
use crate::state_influence::{InfluenceV, StateInfluence, influence_views};
use crate::vector::{Vec3, vec_eqv, vec_zero};

verus! {

/// The stable name of the contact-forces interaction.
pub open spec fn contact_id_v() -> Seq<char> {
    "contact force"@
}

/// What [`ContactForces::init`] returns: distribute the source's own force
/// among the pushed neighbours, then withdraw the distributed total from
/// the source itself (Newton's third law).
pub open spec fn contact_init_v(source: EntityV, neighbors: Seq<EntityV>) -> Seq<InfluenceV> {
    let (infs, forces) = force_scan_v(
        source.state,
        source.identifier,
        source.identifier,
        contact_id_v(),
        neighbors,
    );
    seeds_out_v(infs, forces, source.identifier, contact_id_v())
}

/// The probe state a reactor uses to redistribute an inbound influence:
/// its own location, mass and shape, but the influence's velocity and force.
pub open spec fn contact_probe_v(reactor: EntityV, inbound: InfluenceV) -> StateV {
    StateV {
        location: reactor.state.location,
        velocity: inbound.state_change.velocity,
        net_force: inbound.state_change.net_force,
        mass: reactor.state.mass,
        shape: reactor.state.shape,
    }
}

/// What [`ContactForces::react`] returns: forward the inbound force to the
/// reactor's other pushed neighbours and keep the remainder for the
/// reactor itself.
pub open spec fn contact_react_v(
    reactor: EntityV,
    neighbors: Seq<EntityV>,
    inbound: InfluenceV,
) -> Seq<InfluenceV> {
    let (infs, forces) = force_scan_v(
        contact_probe_v(reactor, inbound),
        inbound.source_id,
        reactor.identifier,
        contact_id_v(),
        neighbors,
    );
    react_out_v(
        infs,
        forces,
        inbound.state_change.net_force,
        inbound.source_id,
        reactor.identifier,
        contact_id_v(),
    )
}

/// Conservation at the seed: whenever no computed quantity overflowed, the
/// forces of the influences `init` produces sum to exactly zero.
pub proof fn lemma_contact_init_conserves(source: EntityV, neighbors: Seq<EntityV>)
    ensures
        all_wf(contact_init_v(source, neighbors)) ==> vec_eqv(
            forces_total_v(contact_init_v(source, neighbors)),
            vec_zero(),
        ),
{
    lemma_force_scan(
        source.state,
        source.identifier,
        source.identifier,
        contact_id_v(),
        neighbors,
    );
    let (infs, forces) = force_scan_v(
        source.state,
        source.identifier,
        source.identifier,
        contact_id_v(),
        neighbors,
    );
    lemma_seeds_out_conserves(infs, forces, source.identifier, contact_id_v());
}

/// Conservation at a reaction: whenever no computed quantity overflowed,
/// the forces of the influences `react` produces sum to exactly the
/// inbound force — redistribution neither creates nor loses force.
pub proof fn lemma_contact_react_conserves(
    reactor: EntityV,
    neighbors: Seq<EntityV>,
    inbound: InfluenceV,
)
    ensures
        all_wf(contact_react_v(reactor, neighbors, inbound)) ==> vec_eqv(
            forces_total_v(contact_react_v(reactor, neighbors, inbound)),
            inbound.state_change.net_force,
        ),
{
    let probe = contact_probe_v(reactor, inbound);
    lemma_force_scan(probe, inbound.source_id, reactor.identifier, contact_id_v(), neighbors);
    let (infs, forces) = force_scan_v(
        probe,
        inbound.source_id,
        reactor.identifier,
        contact_id_v(),
        neighbors,
    );
    lemma_react_out_conserves(
        infs,
        forces,
        inbound.state_change.net_force,
        inbound.source_id,
        reactor.identifier,
        contact_id_v(),
    );
}

/// The contact-forces interaction variant.
#[derive(Clone, Copy, PartialEq, Eq, Structural, Debug)]
pub struct ContactForces;

impl ContactForces {
    /// The stable name of this interaction.
    pub fn get_identifier(&self) -> (r: &'static str)
        ensures
            r@ == contact_id_v(),
    {
        "contact force"
    }

    /// Two bodies are neighbours for contact forces when they touch.
    pub fn is_neighbor(&self, transmitter: &Entity, receiver: &Entity) -> (r: bool)
        requires
            shape_is_sphere(transmitter@.state.shape),
            shape_is_sphere(receiver@.state.shape),
        ensures
            r == crate::geometry::touching_v(transmitter@.state, receiver@.state),
    {
        are_touching(transmitter, receiver)
    }

    /// Seed the propagation with the source's own force; see
    /// [`contact_init_v`].
    pub fn init(&self, source: &Entity, neighbors: Vec<&Entity>, _step_size: &Rat) -> (r: Vec<
        StateInfluence,
    >)
        requires
            shape_is_sphere(source@.state.shape),
            forall|k: int|
                0 <= k < neighbors@.len() ==> shape_is_sphere(
                    (#[trigger] neighbors@[k])@.state.shape,
                ),
        ensures
            influence_views(r@) == contact_init_v(source@, entity_views(neighbors@)),
    {
        let source_id = source.get_identity();
        let interaction_id = self.get_identifier();
        let mut influences: Vec<StateInfluence> = Vec::new();
        let mut forces = Vec3::zero();
        let n = neighbors.len();
        let mut i: usize = 0;
        proof {
            assert(influence_views(influences@) =~= Seq::<InfluenceV>::empty());
            assert(entity_views(neighbors@.subrange(0, 0)) =~= Seq::<EntityV>::empty());
        }
        while i < n
            invariant
                n == neighbors@.len(),
                0 <= i <= n,
                shape_is_sphere(source@.state.shape),
                forall|k: int|
                    0 <= k < neighbors@.len() ==> shape_is_sphere(
                        (#[trigger] neighbors@[k])@.state.shape,
                    ),
                source_id@ == source@.identifier,
                interaction_id@ == contact_id_v(),
                (influence_views(influences@), forces@) == force_scan_v(
                    source@.state,
                    source@.identifier,
                    source@.identifier,
                    contact_id_v(),
                    entity_views(neighbors@.subrange(0, i as int)),
                ),
            decreases n - i,
        {
            let neigh = neighbors[i];
            proof {
                let pre = entity_views(neighbors@.subrange(0, i as int));
                let post = entity_views(neighbors@.subrange(0, i as int + 1));
                assert(post.drop_last() =~= pre);
                assert(post.last() == neighbors@[i as int]@);
            }
            if applies_force_in_direction(source, neigh) {
                let force = get_force_in_direction(source, neigh);
                if keep(&force) {
                    let influence = StateInfluence::force_influence(
                        source_id,
                        source_id,
                        neigh.get_identity(),
                        interaction_id,
                        force,
                    );
                    forces = forces.add(&force);
                    influences.push(influence);
                    proof {
                        assert(influence_views(influences@) =~= influence_views(
                            influences@.drop_last(),
                        ).push(influences@.last()@));
                    }
                }
            }
            i = i + 1;
        }
        proof {
            assert(neighbors@.subrange(0, n as int) =~= neighbors@);
        }
        if keep(&forces) {
            let self_influence = StateInfluence::force_influence(
                source_id,
                source_id,
                source_id,
                interaction_id,
                forces.neg(),
            );
            influences.push(self_influence);
            proof {
                assert(influence_views(influences@) =~= influence_views(
                    influences@.drop_last(),
                ).push(influences@.last()@));
            }
        }
        influences
    }

    /// Redistribute an inbound influence among the reactor's other
    /// neighbours; see [`contact_react_v`].  The reactor must be the
    /// influence's receiver.
    pub fn react(
        &self,
        reactor: &Entity,
        neighbors: Vec<&Entity>,
        influence: StateInfluence,
        _step_size: &Rat,
    ) -> (r: Vec<StateInfluence>)
        requires
            reactor@.identifier == influence@.receiver_id,
            shape_is_sphere(reactor@.state.shape),
            forall|k: int|
                0 <= k < neighbors@.len() ==> shape_is_sphere(
                    (#[trigger] neighbors@[k])@.state.shape,
                ),
        ensures
            influence_views(r@) == contact_react_v(reactor@, entity_views(neighbors@), influence@),
    {
        let reactor_id = reactor.get_identity();
        let source_id = influence.get_source_id();
        let interaction_id = self.get_identifier();
        let inbound_change = influence.get_state_change();
        let inf_entity = Entity::new(
            "-",
            State::new(
                reactor.get_state().get_location(),
                inbound_change.get_velocity(),
                inbound_change.get_net_force(),
                reactor.get_state().get_mass(),
                reactor.get_state().get_shape(),
            ),
        );
        proof {
            assert(inf_entity@.state == contact_probe_v(reactor@, influence@));
        }
        let mut influences: Vec<StateInfluence> = Vec::new();
        let mut forces = Vec3::zero();
        let n = neighbors.len();
        let mut i: usize = 0;
        proof {
            assert(influence_views(influences@) =~= Seq::<InfluenceV>::empty());
            assert(entity_views(neighbors@.subrange(0, 0)) =~= Seq::<EntityV>::empty());
        }
        while i < n
            invariant
                n == neighbors@.len(),
                0 <= i <= n,
                shape_is_sphere(inf_entity@.state.shape),
                forall|k: int|
                    0 <= k < neighbors@.len() ==> shape_is_sphere(
                        (#[trigger] neighbors@[k])@.state.shape,
                    ),
                inf_entity@.state == contact_probe_v(reactor@, influence@),
                reactor_id@ == reactor@.identifier,
                source_id@ == influence@.source_id,
                interaction_id@ == contact_id_v(),
                (influence_views(influences@), forces@) == force_scan_v(
                    contact_probe_v(reactor@, influence@),
                    influence@.source_id,
                    reactor@.identifier,
                    contact_id_v(),
                    entity_views(neighbors@.subrange(0, i as int)),
                ),
            decreases n - i,
        {
            let neigh = neighbors[i];
            proof {
                let pre = entity_views(neighbors@.subrange(0, i as int));
                let post = entity_views(neighbors@.subrange(0, i as int + 1));
                assert(post.drop_last() =~= pre);
                assert(post.last() == neighbors@[i as int]@);
            }
            if applies_force_in_direction(&inf_entity, neigh) {
                let force = get_force_in_direction(&inf_entity, neigh);
                if keep(&force) {
                    let new_influence = StateInfluence::force_influence(
                        source_id,
                        reactor_id,
                        neigh.get_identity(),
                        interaction_id,
                        force,
                    );
                    forces = forces.add(&force);
                    influences.push(new_influence);
                    proof {
                        assert(influence_views(influences@) =~= influence_views(
                            influences@.drop_last(),
                        ).push(influences@.last()@));
                    }
                }
            }
            i = i + 1;
        }
        proof {
            assert(neighbors@.subrange(0, n as int) =~= neighbors@);
        }
        let reactor_force = inbound_change.get_net_force().sub(&forces);
        if keep(&reactor_force) {
            let self_influence = StateInfluence::force_influence(
                source_id,
                reactor_id,
                reactor_id,
                interaction_id,
                reactor_force,
            );
            influences.push(self_influence);
            proof {
                assert(influence_views(influences@) =~= influence_views(
                    influences@.drop_last(),
                ).push(influences@.last()@));
            }
        }
        influences
    }
}

} // verus!
