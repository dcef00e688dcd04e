//! The elastic-collision interaction: an approaching body hands each
//! touching neighbour the force equivalent of the collision velocity
//! change, and withdraws the distributed total from itself.

use vstd::prelude::*;
use crate::distribution::{
    all_wf, force_scan_v, forces_total_v, keep, keep_v, lemma_force_scan, react_out_v,
    seeds_out_v, lemma_react_out_conserves, lemma_seeds_out_conserves, vec_boxed,
};
use crate::entity::{Entity, EntityV, entity_views};
use crate::geometry::{
    applies_force_in_direction, are_touching, get_force_in_direction,
    get_velocity_diff_after_collision, moves_towards, moves_towards_v,
    velocity_diff_after_collision_v,
};
use crate::rational::{Rat, RatV};
use crate::shape::shape_is_sphere;
use crate::state::{State, StateV};
use crate::state_influence::{
    InfluenceV, StateInfluence, force_change_v, influence_views, influence_wf,
};
use crate::vector::{
    Vec3, VecV, vec_add_v, vec_div_s_v, vec_eqv, vec_radd, vec_scale_v, vec_valid, vec_zero,
    lemma_vec_add_value, lemma_vec_eqv_trans, lemma_vec_radd_congruence, lemma_vec_radd_valid,
};

verus! {

/// The stable name of the elastic-collision interaction.
pub open spec fn elastic_id_v() -> Seq<char> {
    "elastic collision"@
}

/// A neighbour that itself moves toward the source is collided with as if
/// it were at rest: its state with the velocity zeroed.
pub open spec fn rest_target_v(s: StateV) -> StateV {
    StateV {
        location: s.location,
        velocity: vec_zero(),
        net_force: s.net_force,
        mass: s.mass,
        shape: s.shape,
    }
}

/// The collision velocity change handed to one neighbour.
pub open spec fn collision_vel_v(source: StateV, nb: StateV) -> VecV {
    if moves_towards_v(nb, source) {
        velocity_diff_after_collision_v(source, rest_target_v(nb))
    } else {
        velocity_diff_after_collision_v(source, nb)
    }
}

/// The force equivalent of a velocity change over one step:
/// `dv / dt * mass`.
pub open spec fn collision_force_v(cv: VecV, dt: RatV, mass: RatV) -> VecV {
    vec_scale_v(vec_div_s_v(cv, dt), mass)
}

/// The scan of `ElasticCollision::init`: every neighbour the source moves
/// toward whose collision velocity change is kept receives the equivalent
/// force; the kept forces are accumulated.
pub open spec fn elastic_scan_v(
    source: EntityV,
    dt: RatV,
    neighbors: Seq<EntityV>,
) -> (Seq<InfluenceV>, VecV)
    decreases neighbors.len(),
{
    if neighbors.len() == 0 {
        (Seq::<InfluenceV>::empty(), vec_zero())
    } else {
        let (infs, forces) = elastic_scan_v(source, dt, neighbors.drop_last());
        let nb = neighbors.last();
        if moves_towards_v(source.state, nb.state) {
            let cv = collision_vel_v(source.state, nb.state);
            if keep_v(cv) {
                let force = collision_force_v(cv, dt, nb.state.mass);
                (
                    infs.push(
                        InfluenceV {
                            source_id: source.identifier,
                            transmitter_id: source.identifier,
                            receiver_id: nb.identifier,
                            interaction_id: elastic_id_v(),
                            state_change: force_change_v(force),
                        },
                    ),
                    vec_add_v(forces, force),
                )
            } else {
                (infs, forces)
            }
        } else {
            (infs, forces)
        }
    }
}

/// The accumulated total of the elastic scan is exactly the sum of the
/// distributed forces (whenever nothing overflowed).
pub proof fn lemma_elastic_scan(source: EntityV, dt: RatV, neighbors: Seq<EntityV>)
    ensures
        ({
            let (infs, forces) = elastic_scan_v(source, dt, neighbors);
            &&& vec_boxed(forces)
            &&& forall|j: int|
                0 <= j < infs.len() ==> {
                    &&& (#[trigger] infs[j]).source_id == source.identifier
                    &&& infs[j].transmitter_id == source.identifier
                    &&& infs[j].interaction_id == elastic_id_v()
                    &&& infs[j].state_change == force_change_v(infs[j].state_change.net_force)
                    &&& exists|k: int|
                        0 <= k < neighbors.len() && infs[j].receiver_id == (
                        #[trigger] neighbors[k]).identifier
                }
            &&& (all_wf(infs) && vec_valid(forces)) ==> vec_eqv(forces_total_v(infs), forces)
        }),
    decreases neighbors.len(),
{
    let (infs, forces) = elastic_scan_v(source, dt, neighbors);
    if neighbors.len() == 0 {
    } else {
        lemma_elastic_scan(source, dt, neighbors.drop_last());
        let (infs0, forces0) = elastic_scan_v(source, dt, neighbors.drop_last());
        let nb = neighbors.last();
        assert(forall|k: int|
            0 <= k < neighbors.len() - 1 ==> neighbors.drop_last()[k] == (
            #[trigger] neighbors[k]));
        if moves_towards_v(source.state, nb.state) && keep_v(collision_vel_v(source.state, nb.state)) {
            let force = collision_force_v(collision_vel_v(source.state, nb.state), dt, nb.state.mass);
            assert(infs.drop_last() =~= infs0);
            if all_wf(infs) && vec_valid(forces) {
                assert(vec_valid(forces0));
                assert(all_wf(infs0));
                assert(vec_eqv(forces_total_v(infs0), forces0));
                lemma_vec_add_value(forces0, force);
                lemma_vec_radd_congruence(forces_total_v(infs0), forces0, force, force);
                assert(forces_total_v(infs) == vec_radd(forces_total_v(infs0), force));
                lemma_vec_radd_valid(forces0, force);
                lemma_vec_eqv_trans(forces_total_v(infs), vec_radd(forces0, force), forces);
            }
        }
    }
}

/// What [`ElasticCollision::init`] returns.
pub open spec fn elastic_init_v(source: EntityV, dt: RatV, neighbors: Seq<EntityV>) -> Seq<
    InfluenceV,
> {
    let (infs, forces) = elastic_scan_v(source, dt, neighbors);
    seeds_out_v(infs, forces, source.identifier, elastic_id_v())
}

/// The probe state a reactor uses to redistribute an inbound collision
/// force: its own location, mass and shape, a zero velocity, and the
/// influence's force.
pub open spec fn elastic_probe_v(reactor: EntityV, inbound: InfluenceV) -> StateV {
    StateV {
        location: reactor.state.location,
        velocity: vec_zero(),
        net_force: inbound.state_change.net_force,
        mass: reactor.state.mass,
        shape: reactor.state.shape,
    }
}

/// What [`ElasticCollision::react`] returns.
pub open spec fn elastic_react_v(
    reactor: EntityV,
    neighbors: Seq<EntityV>,
    inbound: InfluenceV,
) -> Seq<InfluenceV> {
    let (infs, forces) = force_scan_v(
        elastic_probe_v(reactor, inbound),
        inbound.source_id,
        reactor.identifier,
        elastic_id_v(),
        neighbors,
    );
    react_out_v(
        infs,
        forces,
        inbound.state_change.net_force,
        inbound.source_id,
        reactor.identifier,
        elastic_id_v(),
    )
}

/// Conservation at the seed: the forces of the influences `init` produces
/// sum to exactly zero (whenever nothing overflowed).
pub proof fn lemma_elastic_init_conserves(source: EntityV, dt: RatV, neighbors: Seq<EntityV>)
    ensures
        all_wf(elastic_init_v(source, dt, neighbors)) ==> vec_eqv(
            forces_total_v(elastic_init_v(source, dt, neighbors)),
            vec_zero(),
        ),
{
    lemma_elastic_scan(source, dt, neighbors);
    let (infs, forces) = elastic_scan_v(source, dt, neighbors);
    lemma_seeds_out_conserves(infs, forces, source.identifier, elastic_id_v());
}

/// Conservation at a reaction: the forces of the influences `react`
/// produces sum to exactly the inbound force (whenever nothing
/// overflowed).
pub proof fn lemma_elastic_react_conserves(
    reactor: EntityV,
    neighbors: Seq<EntityV>,
    inbound: InfluenceV,
)
    ensures
        all_wf(elastic_react_v(reactor, neighbors, inbound)) ==> vec_eqv(
            forces_total_v(elastic_react_v(reactor, neighbors, inbound)),
            inbound.state_change.net_force,
        ),
{
    let probe = elastic_probe_v(reactor, inbound);
    lemma_force_scan(probe, inbound.source_id, reactor.identifier, elastic_id_v(), neighbors);
    let (infs, forces) = force_scan_v(
        probe,
        inbound.source_id,
        reactor.identifier,
        elastic_id_v(),
        neighbors,
    );
    lemma_react_out_conserves(
        infs,
        forces,
        inbound.state_change.net_force,
        inbound.source_id,
        reactor.identifier,
        elastic_id_v(),
    );
}

/// The elastic-collision interaction variant.
#[derive(Clone, Copy, PartialEq, Eq, Structural, Debug)]
pub struct ElasticCollision;

impl ElasticCollision {
    /// The stable name of this interaction.
    pub fn get_identifier(&self) -> (r: &'static str)
        ensures
            r@ == elastic_id_v(),
    {
        "elastic collision"
    }

    /// Two bodies are neighbours for collisions when they touch.
    pub fn is_neighbor(&self, transmitter: &Entity, receiver: &Entity) -> (r: bool)
        requires
            shape_is_sphere(transmitter@.state.shape),
            shape_is_sphere(receiver@.state.shape),
        ensures
            r == crate::geometry::touching_v(transmitter@.state, receiver@.state),
    {
        are_touching(transmitter, receiver)
    }

    /// Seed the propagation with the collision forces the source exerts on
    /// the neighbours it moves toward; see [`elastic_init_v`].
    #[verifier::rlimit(60)]
    pub fn init(&self, source: &Entity, neighbors: Vec<&Entity>, step_size: &Rat) -> (r: Vec<
        StateInfluence,
    >)
        requires
            shape_is_sphere(source@.state.shape),
            forall|k: int|
                0 <= k < neighbors@.len() ==> shape_is_sphere(
                    (#[trigger] neighbors@[k])@.state.shape,
                ),
        ensures
            influence_views(r@) == elastic_init_v(source@, step_size@, entity_views(neighbors@)),
    {
        let source_id = source.get_identity();
        let interaction_id = self.get_identifier();
        let mut influences: Vec<StateInfluence> = Vec::new();
        let mut forces = Vec3::zero();
        let n = neighbors.len();
        let mut i: usize = 0;
        proof {
            assert(influence_views(influences@) =~= Seq::<InfluenceV>::empty());
            assert(entity_views(neighbors@.subrange(0, 0)) =~= Seq::<EntityV>::empty());
        }
        while i < n
            invariant
                n == neighbors@.len(),
                0 <= i <= n,
                shape_is_sphere(source@.state.shape),
                forall|k: int|
                    0 <= k < neighbors@.len() ==> shape_is_sphere(
                        (#[trigger] neighbors@[k])@.state.shape,
                    ),
                source_id@ == source@.identifier,
                interaction_id@ == elastic_id_v(),
                (influence_views(influences@), forces@) == elastic_scan_v(
                    source@,
                    step_size@,
                    entity_views(neighbors@.subrange(0, i as int)),
                ),
            decreases n - i,
        {
            let neigh = neighbors[i];
            proof {
                let pre = entity_views(neighbors@.subrange(0, i as int));
                let post = entity_views(neighbors@.subrange(0, i as int + 1));
                assert(post.drop_last() =~= pre);
                assert(post.last() == neighbors@[i as int]@);
            }
            if moves_towards(source, neigh) {
                let collision_vel = if moves_towards(neigh, source) {
                    let dummy = Entity::new(
                        neigh.get_identity(),
                        State::new(
                            neigh.get_state().get_location(),
                            Vec3::zero(),
                            neigh.get_state().get_net_force(),
                            neigh.get_state().get_mass(),
                            neigh.get_state().get_shape(),
                        ),
                    );
                    proof {
                        assert(dummy@.state == rest_target_v(neigh@.state));
                    }
                    get_velocity_diff_after_collision(source, &dummy)
                } else {
                    get_velocity_diff_after_collision(source, neigh)
                };
                proof {
                    assert(collision_vel@ == collision_vel_v(source@.state, neigh@.state));
                }
                if keep(&collision_vel) {
                    let force = collision_vel.div_scalar(step_size).scale(
                        &neigh.get_state().get_mass(),
                    );
                    let influence = StateInfluence::force_influence(
                        source_id,
                        source_id,
                        neigh.get_identity(),
                        interaction_id,
                        force,
                    );
                    forces = forces.add(&force);
                    influences.push(influence);
                    proof {
                        assert(influence_views(influences@) =~= influence_views(
                            influences@.drop_last(),
                        ).push(influences@.last()@));
                    }
                }
            }
            i = i + 1;
        }
        proof {
            assert(neighbors@.subrange(0, n as int) =~= neighbors@);
        }
        if keep(&forces) {
            let self_influence = StateInfluence::force_influence(
                source_id,
                source_id,
                source_id,
                interaction_id,
                forces.neg(),
            );
            influences.push(self_influence);
            proof {
                assert(influence_views(influences@) =~= influence_views(
                    influences@.drop_last(),
                ).push(influences@.last()@));
            }
        }
        influences
    }

    /// Redistribute an inbound collision force among the reactor's other
    /// neighbours; see [`elastic_react_v`].  The reactor must be the
    /// influence's receiver.
    pub fn react(
        &self,
        reactor: &Entity,
        neighbors: Vec<&Entity>,
        influence: StateInfluence,
        _step_size: &Rat,
    ) -> (r: Vec<StateInfluence>)
        requires
            reactor@.identifier == influence@.receiver_id,
            shape_is_sphere(reactor@.state.shape),
            forall|k: int|
                0 <= k < neighbors@.len() ==> shape_is_sphere(
                    (#[trigger] neighbors@[k])@.state.shape,
                ),
        ensures
            influence_views(r@) == elastic_react_v(reactor@, entity_views(neighbors@), influence@),
    {
        let reactor_id = reactor.get_identity();
        let source_id = influence.get_source_id();
        let interaction_id = self.get_identifier();
        let inbound_change = influence.get_state_change();
        let inf_entity = Entity::new(
            "-",
            State::new(
                reactor.get_state().get_location(),
                Vec3::zero(),
                inbound_change.get_net_force(),
                reactor.get_state().get_mass(),
                reactor.get_state().get_shape(),
            ),
        );
        proof {
            assert(inf_entity@.state == elastic_probe_v(reactor@, influence@));
        }
        let mut influences: Vec<StateInfluence> = Vec::new();
        let mut forces = Vec3::zero();
        let n = neighbors.len();
        let mut i: usize = 0;
        proof {
            assert(influence_views(influences@) =~= Seq::<InfluenceV>::empty());
            assert(entity_views(neighbors@.subrange(0, 0)) =~= Seq::<EntityV>::empty());
        }
        while i < n
            invariant
                n == neighbors@.len(),
                0 <= i <= n,
                shape_is_sphere(inf_entity@.state.shape),
                forall|k: int|
                    0 <= k < neighbors@.len() ==> shape_is_sphere(
                        (#[trigger] neighbors@[k])@.state.shape,
                    ),
                inf_entity@.state == elastic_probe_v(reactor@, influence@),
                reactor_id@ == reactor@.identifier,
                source_id@ == influence@.source_id,
                interaction_id@ == elastic_id_v(),
                (influence_views(influences@), forces@) == force_scan_v(
                    elastic_probe_v(reactor@, influence@),
                    influence@.source_id,
                    reactor@.identifier,
                    elastic_id_v(),
                    entity_views(neighbors@.subrange(0, i as int)),
                ),
            decreases n - i,
        {
            let neigh = neighbors[i];
            proof {
                let pre = entity_views(neighbors@.subrange(0, i as int));
                let post = entity_views(neighbors@.subrange(0, i as int + 1));
                assert(post.drop_last() =~= pre);
                assert(post.last() == neighbors@[i as int]@);
            }
            if applies_force_in_direction(&inf_entity, neigh) {
                let force = get_force_in_direction(&inf_entity, neigh);
                if keep(&force) {
                    let new_influence = StateInfluence::force_influence(
                        source_id,
                        reactor_id,
                        neigh.get_identity(),
                        interaction_id,
                        force,
                    );
                    forces = forces.add(&force);
                    influences.push(new_influence);
                    proof {
                        assert(influence_views(influences@) =~= influence_views(
                            influences@.drop_last(),
                        ).push(influences@.last()@));
                    }
                }
            }
            i = i + 1;
        }
        proof {
            assert(neighbors@.subrange(0, n as int) =~= neighbors@);
        }
        let reactor_force = inbound_change.get_net_force().sub(&forces);
        if keep(&reactor_force) {
            let self_influence = StateInfluence::force_influence(
                source_id,
                reactor_id,
                reactor_id,
                interaction_id,
                reactor_force,
            );
            influences.push(self_influence);
            proof {
                assert(influence_views(influences@) =~= influence_views(
                    influences@.drop_last(),
                ).push(influences@.last()@));
            }
        }
        influences
    }
}

} // verus!
