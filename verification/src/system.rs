//! The system orchestrator: owns the entity and interaction lists, drives
//! one simulation step, and exposes the momentum and energy diagnostics.

use vstd::prelude::*;
use crate::entity::{Entity, EntityV, kinetic_energy_v, momentum_v, potential_energy_v, world_views};
use crate::ident::id_eq;
use crate::propagation::{
    Interaction, SimError, all_spheres, any_needs_spheres, get_influences_v, interaction_id_of,
    needs_spheres,
};
use crate::distribution::{
    all_force_carriers, all_wf, lemma_source_forces_concat, lemma_source_forces_valid,
    lemma_vec_eqv_refl, source_forces_v,
};
use crate::rational::{
    Rat, RatV, rat_add_v, rat_eqv, rat_fits, rat_radd, rat_rneg, rat_sub_v, rat_valid, rat_zero,
    lemma_add_value, lemma_eqv_pos, lemma_eqv_trans, lemma_radd_zero, lemma_sub_value,
};
use crate::state::{StateV, state_evolve_v, state_numeric_wf, state_quantities_valid};
use crate::shape::ShapeV;
use crate::state_influence::{
    InfluenceV, StateInfluence, force_change_v, influence_views, influence_wf,
};
use crate::entity::{overlay_add_v, overlay_sub_v};
use crate::propagation::resolved_all;
use crate::vector::{
    Vec3, VecV, vec_add_v, vec_eqv, vec_radd, vec_zero, lemma_vec_eqv_trans,
    lemma_vec_radd_congruence, lemma_vec_radd_valid, lemma_vec_radd_zero,
};

verus! {

/// Mathematical value of a system.
pub struct SystemV {
    pub entities: Seq<EntityV>,
    pub interactions: Seq<Interaction>,
    pub current_time: RatV,
}

/// No two entities share an identifier.
pub open spec fn unique_ids(w: Seq<EntityV>) -> bool {
    forall|i: int, j: int|
        0 <= i < j < w.len() ==> (#[trigger] w[i]).identifier != (#[trigger] w[j]).identifier
}

/// No two interactions share an identifier.
pub open spec fn unique_interaction_ids(is: Seq<Interaction>) -> bool {
    forall|i: int, j: int|
        0 <= i < j < is.len() ==> interaction_id_of(#[trigger] is[i]) != interaction_id_of(
            #[trigger] is[j],
        )
}

/// The influences of `infs` addressed to the entity `id`, in order.
pub open spec fn influences_for(infs: Seq<InfluenceV>, id: Seq<char>) -> Seq<InfluenceV> {
    infs.filter(|i: InfluenceV| i.receiver_id == id)
}

/// One step of a single entity: attach the influences addressed to it,
/// integrate, then remove the overlays again, clearing the transient list.
pub open spec fn entity_step_v(e: EntityV, infs: Seq<InfluenceV>, dt: RatV) -> EntityV {
    let attached = e.influences + influences_for(infs, e.identifier);
    EntityV {
        identifier: e.identifier,
        state: overlay_sub_v(state_evolve_v(overlay_add_v(e.state, attached), dt), attached),
        influences: Seq::<InfluenceV>::empty(),
    }
}

/// The influences of the registered interactions from position `k` on,
/// resolved over the world and concatenated in registration order.
pub open spec fn gather_v(
    interactions: Seq<Interaction>,
    w: Seq<EntityV>,
    dt: RatV,
    k: int,
    acc: Seq<InfluenceV>,
) -> Result<Seq<InfluenceV>, SimError>
    decreases interactions.len() - k,
{
    if k < 0 || k >= interactions.len() {
        Ok(acc)
    } else {
        match get_influences_v(interactions[k], w, dt) {
            Ok(batch) => gather_v(interactions, w, dt, k + 1, acc + batch),
            Err(e) => Err(e),
        }
    }
}

/// Step the entities from position `k` on; fails on the first entity whose
/// stepped state leaves the representable range.
pub open spec fn step_entities_v(
    w: Seq<EntityV>,
    infs: Seq<InfluenceV>,
    dt: RatV,
    k: int,
    acc: Seq<EntityV>,
) -> Result<Seq<EntityV>, SimError>
    decreases w.len() - k,
{
    if k < 0 || k >= w.len() {
        Ok(acc)
    } else {
        let stepped = entity_step_v(w[k], infs, dt);
        if !state_quantities_valid(stepped.state) {
            Err(SimError::Numeric)
        } else {
            step_entities_v(w, infs, dt, k + 1, acc.push(stepped))
        }
    }
}

/// What [`System::next_state`] computes: advance the clock, gather the
/// influences of every registered interaction, and step every entity with
/// the influences addressed to it.  Fails exactly when the new time, a
/// propagation, or a stepped entity leaves the exact arithmetic (or a
/// resolution exhausts its step budget).
pub open spec fn next_state_v(sys: SystemV, dt: RatV) -> Result<SystemV, SimError> {
    let t2 = rat_add_v(sys.current_time, dt);
    if !rat_valid(t2) {
        Err(SimError::Numeric)
    } else {
        match gather_v(sys.interactions, sys.entities, dt, 0, Seq::<InfluenceV>::empty()) {
            Err(e) => Err(e),
            Ok(infs) => match step_entities_v(
                sys.entities,
                infs,
                dt,
                0,
                Seq::<EntityV>::empty(),
            ) {
                Err(e) => Err(e),
                Ok(es) => Ok(
                    SystemV { entities: es, interactions: sys.interactions, current_time: t2 },
                ),
            },
        }
    }
}

/// Filtering keeps only force carriers when the whole list holds only
/// force carriers.
proof fn lemma_influences_for_carriers(infs: Seq<InfluenceV>, id: Seq<char>)
    requires
        all_force_carriers(infs),
    ensures
        all_force_carriers(influences_for(infs, id)),
    decreases infs.len(),
{
    reveal(Seq::filter);
    if infs.len() > 0 {
        assert forall|j: int| 0 <= j < infs.drop_last().len() implies (
        #[trigger] infs.drop_last()[j]).state_change == force_change_v(
            infs.drop_last()[j].state_change.net_force,
        ) by {
            assert(infs.drop_last()[j] == infs[j]);
        }
        lemma_influences_for_carriers(infs.drop_last(), id);
        let sub = influences_for(infs.drop_last(), id);
        let out = influences_for(infs, id);
        assert forall|q: int| 0 <= q < out.len() implies (#[trigger] out[q]).state_change
            == force_change_v(out[q].state_change.net_force) by {
            if infs.last().receiver_id == id {
                assert(out == sub.push(infs.last()));
                if q < out.len() - 1 {
                    assert(out[q] == sub[q]);
                } else {
                    assert(out[q] == infs.last());
                }
            } else {
                assert(out == sub);
            }
        }
    }
}

/// Overlaying pure force carriers touches only the net force: the shape is
/// unchanged, and a mass that stays representable keeps its value.
proof fn lemma_overlay_mass_shape(s: StateV, infs: Seq<InfluenceV>)
    requires
        all_force_carriers(infs),
    ensures
        overlay_add_v(s, infs).shape == s.shape,
        overlay_sub_v(s, infs).shape == s.shape,
        rat_valid(overlay_add_v(s, infs).mass) ==> rat_valid(s.mass) && rat_eqv(
            overlay_add_v(s, infs).mass,
            s.mass,
        ),
        rat_valid(overlay_sub_v(s, infs).mass) ==> rat_valid(s.mass) && rat_eqv(
            overlay_sub_v(s, infs).mass,
            s.mass,
        ),
    decreases infs.len(),
{
    if infs.len() > 0 {
        assert forall|j: int| 0 <= j < infs.drop_last().len() implies (
        #[trigger] infs.drop_last()[j]).state_change == force_change_v(
            infs.drop_last()[j].state_change.net_force,
        ) by {
            assert(infs.drop_last()[j] == infs[j]);
        }
        lemma_overlay_mass_shape(s, infs.drop_last());
        let change = infs.last().state_change;
        assert(change.mass == rat_zero() && change.shape == ShapeV::Absent);
        let ma = overlay_add_v(s, infs.drop_last()).mass;
        let ms = overlay_sub_v(s, infs.drop_last()).mass;
        // one more zero overlay keeps the value (or poisons)
        lemma_add_value(ma, rat_zero());
        lemma_radd_zero(ma);
        lemma_sub_value(ms, rat_zero());
        assert(rat_radd(ms, rat_rneg(rat_zero())) == ms);
        if rat_valid(rat_add_v(ma, rat_zero())) {
            assert(rat_fits(ma));
            lemma_eqv_trans(rat_add_v(ma, rat_zero()), ma, s.mass);
        }
        if rat_valid(rat_sub_v(ms, rat_zero())) {
            assert(rat_fits(ms));
            lemma_eqv_trans(rat_sub_v(ms, rat_zero()), ms, s.mass);
        }
    }
}

/// One entity step with pure force carriers keeps the identifier, the
/// shape and the (positive) mass, and leaves the influence list empty.
proof fn lemma_entity_step_preserves(e: EntityV, infs: Seq<InfluenceV>, dt: RatV)
    requires
        all_force_carriers(infs),
        e.influences.len() == 0,
        rat_valid(e.state.mass),
        e.state.mass.n > 0,
        state_quantities_valid(entity_step_v(e, infs, dt).state),
    ensures
        entity_step_v(e, infs, dt).identifier == e.identifier,
        entity_step_v(e, infs, dt).influences.len() == 0,
        entity_step_v(e, infs, dt).state.shape == e.state.shape,
        rat_eqv(entity_step_v(e, infs, dt).state.mass, e.state.mass),
        state_numeric_wf(entity_step_v(e, infs, dt).state),
{
    lemma_influences_for_carriers(infs, e.identifier);
    let attached = e.influences + influences_for(infs, e.identifier);
    assert(attached =~= influences_for(infs, e.identifier));
    let s1 = overlay_add_v(e.state, attached);
    let s2 = state_evolve_v(s1, dt);
    let s3 = overlay_sub_v(s2, attached);
    assert(entity_step_v(e, infs, dt).state == s3);
    assert(s2.mass == s1.mass && s2.shape == s1.shape);
    lemma_overlay_mass_shape(e.state, attached);
    lemma_overlay_mass_shape(s2, attached);
    // the mass survived every overlay, so its value is the original one
    assert(rat_valid(s3.mass));
    assert(rat_valid(s2.mass) && rat_eqv(s3.mass, s2.mass));
    assert(rat_valid(e.state.mass) && rat_eqv(s1.mass, e.state.mass));
    lemma_eqv_trans(s3.mass, s1.mass, e.state.mass);
    lemma_eqv_pos(e.state.mass, s3.mass);
}

/// The total momentum of a world, summed in world order.
pub open spec fn system_momentum_v(w: Seq<EntityV>) -> VecV
    decreases w.len(),
{
    if w.len() == 0 {
        vec_zero()
    } else {
        vec_add_v(system_momentum_v(w.drop_last()), momentum_v(w.last().state))
    }
}

/// The total kinetic energy of a world, summed in world order.
pub open spec fn kinetic_sum_v(w: Seq<EntityV>) -> RatV
    decreases w.len(),
{
    if w.len() == 0 {
        rat_zero()
    } else {
        rat_add_v(kinetic_sum_v(w.drop_last()), kinetic_energy_v(w.last().state))
    }
}

/// Accumulate onto `acc` the potential energies of `e` against every
/// entity of `w` with a different identifier, in world order.
pub open spec fn potential_acc_v(acc: RatV, e: EntityV, w: Seq<EntityV>) -> RatV
    decreases w.len(),
{
    if w.len() == 0 {
        acc
    } else {
        let prev = potential_acc_v(acc, e, w.drop_last());
        if w.last().identifier == e.identifier {
            prev
        } else {
            rat_add_v(prev, potential_energy_v(e.state, w.last().state))
        }
    }
}

/// The potential energy summed over ordered pairs of distinct entities;
/// each unordered pair is deliberately counted twice.
pub open spec fn potential_total_v(acc: RatV, all: Seq<EntityV>, w: Seq<EntityV>) -> RatV
    decreases w.len(),
{
    if w.len() == 0 {
        acc
    } else {
        potential_acc_v(potential_total_v(acc, all, w.drop_last()), w.last(), all)
    }
}

/// The total energy of a world: the ordered-pair potential sum plus the
/// kinetic sum.
pub open spec fn system_energy_v(w: Seq<EntityV>) -> RatV {
    rat_add_v(potential_total_v(rat_zero(), w, w), kinetic_sum_v(w))
}

/// The simulated world: the entity set, the active interactions, and the
/// current simulation time.
pub struct System {
    entities: Vec<Entity>,
    interactions: Vec<Interaction>,
    current_time: Rat,
}

impl View for System {
    type V = SystemV;

    closed spec fn view(&self) -> SystemV {
        SystemV {
            entities: world_views(self.entities@),
            interactions: self.interactions@,
            current_time: self.current_time@,
        }
    }
}

/// Whether all entity identifiers in the list are mutually distinct.
fn check_identities(entities: &Vec<Entity>) -> (r: bool)
    ensures
        r == unique_ids(world_views(entities@)),
{
    let ghost w = world_views(entities@);
    let n = entities.len();
    let mut i: usize = 0;
    while i < n
        invariant
            w == world_views(entities@),
            n == entities@.len(),
            0 <= i <= n,
            forall|a: int, b: int|
                0 <= a < b < w.len() && a < i ==> (#[trigger] w[a]).identifier != (
                #[trigger] w[b]).identifier,
        decreases n - i,
    {
        let mut j: usize = i + 1;
        while j < n
            invariant
                w == world_views(entities@),
                n == entities@.len(),
                0 <= i < j <= n,
                forall|b: int| i < b < j ==> w[i as int].identifier != (#[trigger] w[b]).identifier,
            decreases n - j,
        {
            if id_eq(entities[i].get_identity(), entities[j].get_identity()) {
                proof {
                    assert((#[trigger] w[i as int]).identifier == (#[trigger] w[j as int]).identifier);
                }
                return false;
            }
            j = j + 1;
        }
        i = i + 1;
    }
    true
}

/// Whether all interaction identifiers in the list are mutually distinct.
fn check_interaction_identities(interactions: &Vec<Interaction>) -> (r: bool)
    ensures
        r == unique_interaction_ids(interactions@),
{
    let n = interactions.len();
    let mut i: usize = 0;
    while i < n
        invariant
            n == interactions@.len(),
            0 <= i <= n,
            forall|a: int, b: int|
                0 <= a < b < interactions@.len() && a < i ==> interaction_id_of(
                    #[trigger] interactions@[a],
                ) != interaction_id_of(#[trigger] interactions@[b]),
        decreases n - i,
    {
        let mut j: usize = i + 1;
        while j < n
            invariant
                n == interactions@.len(),
                0 <= i < j <= n,
                forall|b: int|
                    i < b < j ==> interaction_id_of(interactions@[i as int]) != interaction_id_of(
                        #[trigger] interactions@[b],
                    ),
            decreases n - j,
        {
            let id_i = interactions[i].get_identifier();
            let id_j = interactions[j].get_identifier();
            if id_eq(id_i, id_j) {
                proof {
                    assert(!unique_interaction_ids(interactions@)) by {
                        assert(0 <= (i as int) && (i as int) < (j as int) && (j as int)
                            < interactions@.len());
                        assert(interaction_id_of(#[trigger] interactions@[i as int])
                            == interaction_id_of(#[trigger] interactions@[j as int]));
                    }
                }
                return false;
            }
            j = j + 1;
        }
        i = i + 1;
    }
    true
}

/// Attach to `ent` every influence of the list addressed to it, in order.
fn attach_influences(ent: &mut Entity, influences: &Vec<StateInfluence>)
    ensures
        final(ent)@.identifier == old(ent)@.identifier,
        final(ent)@.state == old(ent)@.state,
        final(ent)@.influences == old(ent)@.influences + influences_for(
            influence_views(influences@),
            old(ent)@.identifier,
        ),
{
    let ghost iv = influence_views(influences@);
    let ghost e0 = old(ent)@;
    let nf = influences.len();
    let mut fi: usize = 0;
    proof {
        reveal(Seq::filter);
        assert(influences_for(iv.subrange(0, 0), e0.identifier) =~= Seq::<InfluenceV>::empty());
        assert(ent@.influences =~= e0.influences + influences_for(
            iv.subrange(0, 0),
            e0.identifier,
        ));
    }
    while fi < nf
        invariant
            nf == influences@.len(),
            iv == influence_views(influences@),
            0 <= fi <= nf,
            ent@.identifier == e0.identifier,
            ent@.state == e0.state,
            ent@.influences == e0.influences + influences_for(
                iv.subrange(0, fi as int),
                e0.identifier,
            ),
        decreases nf - fi,
    {
        proof {
            let pre = iv.subrange(0, fi as int);
            let post = iv.subrange(0, fi as int + 1);
            assert(post.drop_last() =~= pre);
            assert(post.last() == iv[fi as int]);
            assert(iv[fi as int] == influences@[fi as int]@);
        }
        let influence = &influences[fi];
        if id_eq(ent.get_identity(), influence.get_receiver_id()) {
            proof {
                assert(iv[fi as int].receiver_id == e0.identifier);
            }
            ent.add_influence(influence);
            proof {
                reveal(Seq::filter);
                assert(ent@.influences =~= e0.influences + influences_for(
                    iv.subrange(0, fi as int + 1),
                    e0.identifier,
                ));
            }
        } else {
            proof {
                reveal(Seq::filter);
                assert(iv[fi as int].receiver_id != e0.identifier);
                assert(influences_for(iv.subrange(0, fi as int + 1), e0.identifier)
                    =~= influences_for(iv.subrange(0, fi as int), e0.identifier));
            }
        }
        fi = fi + 1;
    }
    proof {
        assert(iv.subrange(0, nf as int) =~= iv);
    }
}

/// Gather and resolve the influences of every registered interaction
/// over the whole world, concatenated in interaction order.
fn gather_influences(
    interactions: &Vec<Interaction>,
    entities: &Vec<Entity>,
    elapsed_time: &Rat,
) -> (r: Result<Vec<StateInfluence>, SimError>)
    requires
        any_needs_spheres(interactions@) ==> all_spheres(world_views(entities@)),
    ensures
        r matches Ok(out) ==> gather_v(
            interactions@,
            world_views(entities@),
            elapsed_time@,
            0,
            Seq::<InfluenceV>::empty(),
        ) == Ok::<Seq<InfluenceV>, SimError>(influence_views(out@)),
        r matches Err(e) ==> gather_v(
            interactions@,
            world_views(entities@),
            elapsed_time@,
            0,
            Seq::<InfluenceV>::empty(),
        ) == Err::<Seq<InfluenceV>, SimError>(e),
        r matches Ok(out) ==> {
            &&& resolved_all(influence_views(out@))
            &&& all_wf(influence_views(out@))
            &&& all_force_carriers(influence_views(out@))
            &&& forall|src: Seq<char>|
                vec_eqv(#[trigger] source_forces_v(influence_views(out@), src), vec_zero())
        },
{
    let ghost old_world = world_views(entities@);
    let mut influences: Vec<StateInfluence> = Vec::new();
    let ni = interactions.len();
    let mut ii: usize = 0;
    proof {
        assert(influence_views(influences@) =~= Seq::<InfluenceV>::empty());
        assert forall|src: Seq<char>| vec_eqv(
            #[trigger] source_forces_v(influence_views(influences@), src),
            vec_zero(),
        ) by {
            lemma_vec_eqv_refl(vec_zero());
        }
    }
    while ii < ni
        invariant
            ni == interactions@.len(),
            0 <= ii <= ni,
            old_world == world_views(entities@),
            any_needs_spheres(interactions@) ==> all_spheres(old_world),
            all_wf(influence_views(influences@)),
            all_force_carriers(influence_views(influences@)),
            resolved_all(influence_views(influences@)),
            gather_v(interactions@, old_world, elapsed_time@, ii as int, influence_views(
                influences@,
            )) == gather_v(
                interactions@,
                old_world,
                elapsed_time@,
                0,
                Seq::<InfluenceV>::empty(),
            ),
            forall|src: Seq<char>|
                vec_eqv(
                    #[trigger] source_forces_v(influence_views(influences@), src),
                    vec_zero(),
                ),
        decreases ni - ii,
    {
        let interaction = interactions[ii];
        proof {
            if needs_spheres(interaction) {
                assert(any_needs_spheres(interactions@)) by {
                    assert(needs_spheres(interactions@[ii as int]));
                }
            }
        }
        let mut batch = match interaction.get_influences(entities, elapsed_time) {
            Ok(b) => b,
            Err(e) => {
                proof {
                    assert(get_influences_v(interaction, old_world, elapsed_time@)
                        == Err::<Seq<InfluenceV>, SimError>(e));
                    assert(gather_v(
                        interactions@,
                        old_world,
                        elapsed_time@,
                        ii as int,
                        influence_views(influences@),
                    ) == Err::<Seq<InfluenceV>, SimError>(e));
                }
                return Err(e);
            },
        };
        let ghost acc = influence_views(influences@);
        let ghost bv = influence_views(batch@);
        proof {
            assert(get_influences_v(interaction, old_world, elapsed_time@)
                == Ok::<Seq<InfluenceV>, SimError>(bv));
            assert(gather_v(interactions@, old_world, elapsed_time@, ii as int, acc)
                == gather_v(interactions@, old_world, elapsed_time@, ii as int + 1, acc + bv));
        }
        influences.append(&mut batch);
        proof {
            let acc2 = influence_views(influences@);
            assert(acc2 =~= acc + bv);
            assert forall|q: int| 0 <= q < acc2.len() implies influence_wf(
                #[trigger] acc2[q],
            ) && acc2[q].state_change == force_change_v(acc2[q].state_change.net_force)
                && crate::state_influence::influence_resolved(acc2[q]) by {
                if q < acc.len() {
                    assert(acc2[q] == acc[q]);
                } else {
                    assert(acc2[q] == bv[q - acc.len()]);
                }
            }
            assert forall|src: Seq<char>| vec_eqv(
                #[trigger] source_forces_v(acc2, src),
                vec_zero(),
            ) by {
                lemma_source_forces_concat(acc, bv, src);
                lemma_source_forces_valid(acc, src);
                lemma_source_forces_valid(bv, src);
                lemma_vec_radd_congruence(
                    source_forces_v(acc, src),
                    vec_zero(),
                    source_forces_v(bv, src),
                    vec_zero(),
                );
                assert(vec_radd(vec_zero(), vec_zero()) == vec_zero()) by {
                    lemma_vec_radd_zero(vec_zero());
                }
                lemma_vec_radd_valid(source_forces_v(acc, src), source_forces_v(bv, src));
                lemma_vec_eqv_trans(
                    source_forces_v(acc2, src),
                    vec_radd(source_forces_v(acc, src), source_forces_v(bv, src)),
                    vec_zero(),
                );
            }
        }
        ii = ii + 1;
    }
    proof {
        assert(gather_v(
            interactions@,
            old_world,
            elapsed_time@,
            ni as int,
            influence_views(influences@),
        ) == Ok::<Seq<InfluenceV>, SimError>(influence_views(influences@)));
    }
    Ok(influences)
}

impl System {
    /// Build a system.  Construction is refused exactly when two entities
    /// or two interactions share an identifier.
    pub fn new(entities: Vec<Entity>, interactions: Vec<Interaction>, current_time: Rat) -> (r:
        Result<System, SimError>)
        ensures
            r matches Ok(s) ==> {
                &&& s@ == (SystemV {
                    entities: world_views(entities@),
                    interactions: interactions@,
                    current_time: current_time@,
                })
                &&& unique_ids(world_views(entities@))
                &&& unique_interaction_ids(interactions@)
            },
            r is Err <==> !(unique_ids(world_views(entities@)) && unique_interaction_ids(
                interactions@,
            )),
            r matches Err(e) ==> e == SimError::DuplicateIdentifier,
    {
        if !check_identities(&entities) {
            return Err(SimError::DuplicateIdentifier);
        }
        if !check_interaction_identities(&interactions) {
            return Err(SimError::DuplicateIdentifier);
        }
        Ok(System { entities, interactions, current_time })
    }

    pub fn get_current_time(&self) -> (t: Rat)
        ensures
            t@ == self@.current_time,
    {
        self.current_time
    }

    pub fn get_entities(&self) -> (r: &Vec<Entity>)
        ensures
            world_views(r@) == self@.entities,
    {
        &self.entities
    }

    /// The total momentum `sum of mass * velocity` over all entities.
    pub fn get_momentum(&self) -> (m: Vec3)
        ensures
            m@ == system_momentum_v(self@.entities),
    {
        let ghost w = world_views(self.entities@);
        let mut momentum = Vec3::zero();
        let n = self.entities.len();
        let mut i: usize = 0;
        proof {
            assert(w.subrange(0, 0) =~= Seq::<EntityV>::empty());
        }
        while i < n
            invariant
                w == world_views(self.entities@),
                n == self.entities@.len(),
                0 <= i <= n,
                momentum@ == system_momentum_v(w.subrange(0, i as int)),
            decreases n - i,
        {
            proof {
                let pre = w.subrange(0, i as int);
                let post = w.subrange(0, i as int + 1);
                assert(post.drop_last() =~= pre);
                assert(post.last() == w[i as int]);
            }
            momentum = momentum.add(&self.entities[i].get_momentum());
            i = i + 1;
        }
        proof {
            assert(w.subrange(0, n as int) =~= w);
        }
        momentum
    }

    /// The total energy of the system: the kinetic energies of all bodies
    /// plus the gravitational potential energy over ordered pairs of
    /// distinct bodies, each unordered pair deliberately counted twice.
    pub fn get_energy(&self) -> (e: Rat)
        ensures
            e@ == system_energy_v(self@.entities),
    {
        let ghost w = world_views(self.entities@);
        let n = self.entities.len();
        let mut kinetic = Rat::from_int(0);
        let mut i: usize = 0;
        proof {
            assert(w.subrange(0, 0) =~= Seq::<EntityV>::empty());
        }
        while i < n
            invariant
                w == world_views(self.entities@),
                n == self.entities@.len(),
                0 <= i <= n,
                kinetic@ == kinetic_sum_v(w.subrange(0, i as int)),
            decreases n - i,
        {
            proof {
                let pre = w.subrange(0, i as int);
                let post = w.subrange(0, i as int + 1);
                assert(post.drop_last() =~= pre);
                assert(post.last() == w[i as int]);
            }
            kinetic = kinetic.add(&self.entities[i].get_kinetic_energy());
            i = i + 1;
        }
        let mut potential = Rat::from_int(0);
        let mut a: usize = 0;
        proof {
            assert(w.subrange(0, n as int) =~= w);
            assert(w.subrange(0, 0) =~= Seq::<EntityV>::empty());
        }
        while a < n
            invariant
                w == world_views(self.entities@),
                n == self.entities@.len(),
                0 <= a <= n,
                potential@ == potential_total_v(rat_zero(), w, w.subrange(0, a as int)),
            decreases n - a,
        {
            proof {
                let pre = w.subrange(0, a as int);
                let post = w.subrange(0, a as int + 1);
                assert(post.drop_last() =~= pre);
                assert(post.last() == w[a as int]);
                assert(w.subrange(0, 0) =~= Seq::<EntityV>::empty());
            }
            let ghost row_start = potential@;
            let mut b: usize = 0;
            while b < n
                invariant
                    w == world_views(self.entities@),
                    n == self.entities@.len(),
                    0 <= a < n,
                    0 <= b <= n,
                    potential@ == potential_acc_v(row_start, w[a as int], w.subrange(0, b as int)),
                decreases n - b,
            {
                proof {
                    let pre = w.subrange(0, b as int);
                    let post = w.subrange(0, b as int + 1);
                    assert(post.drop_last() =~= pre);
                    assert(post.last() == w[b as int]);
                }
                let ea = &self.entities[a];
                let eb = &self.entities[b];
                if !id_eq(ea.get_identity(), eb.get_identity()) {
                    potential = potential.add(&ea.get_potential_energy(eb));
                }
                b = b + 1;
            }
            proof {
                assert(w.subrange(0, n as int) =~= w);
            }
            a = a + 1;
        }
        proof {
            assert(w.subrange(0, n as int) =~= w);
        }
        potential.add(&kinetic)
    }

    /// Advance the whole system by `elapsed_time`: gather the influences
    /// of every registered interaction, attach each to its receiver,
    /// integrate every entity, clear the transient influences again, and
    /// advance the clock.
    ///
    /// On success there was a resolved, conservation-obeying influence set
    /// (its forces sum to zero for every source) such that every entity
    /// stepped with exactly the influences addressed to it.  An error
    /// reports an exact-arithmetic overflow or an exhausted propagation
    /// budget; the system state is then unspecified and callers should
    /// treat the error as fatal.
    #[verifier::rlimit(100)]
    pub fn next_state(&mut self, elapsed_time: &Rat) -> (r: Result<(), SimError>)
        requires
            forall|k: int|
                0 <= k < old(self)@.entities.len() ==> state_numeric_wf(
                    (#[trigger] old(self)@.entities[k]).state,
                ),
            forall|k: int|
                0 <= k < old(self)@.entities.len() ==> (#[trigger] old(
                    self,
                )@.entities[k]).influences.len() == 0,
            any_needs_spheres(old(self)@.interactions) ==> all_spheres(old(self)@.entities),
        ensures
            r is Ok ==> next_state_v(old(self)@, elapsed_time@) == Ok::<SystemV, SimError>(
                final(self)@,
            ),
            r matches Err(e) ==> next_state_v(old(self)@, elapsed_time@) == Err::<
                SystemV,
                SimError,
            >(e),
            r is Ok ==> {
                let gr = gather_v(
                    old(self)@.interactions,
                    old(self)@.entities,
                    elapsed_time@,
                    0,
                    Seq::<InfluenceV>::empty(),
                );
                &&& gr is Ok
                &&& final(self)@.entities.len() == old(self)@.entities.len()
                &&& final(self)@.interactions == old(self)@.interactions
                &&& final(self)@.current_time == rat_add_v(old(self)@.current_time, elapsed_time@)
                &&& rat_valid(final(self)@.current_time)
                &&& resolved_all(gr->Ok_0)
                &&& all_wf(gr->Ok_0)
                &&& all_force_carriers(gr->Ok_0)
                &&& (forall|src: Seq<char>|
                    vec_eqv(#[trigger] source_forces_v(gr->Ok_0, src), vec_zero()))
                &&& (forall|k: int|
                    0 <= k < old(self)@.entities.len() ==> final(self)@.entities[k]
                        == entity_step_v(
                        #[trigger] old(self)@.entities[k],
                        gr->Ok_0,
                        elapsed_time@,
                    ))
                &&& (forall|k: int|
                    0 <= k < old(self)@.entities.len() ==> {
                        &&& state_numeric_wf((#[trigger] final(self)@.entities[k]).state)
                        &&& final(self)@.entities[k].state.shape == old(
                            self,
                        )@.entities[k].state.shape
                        &&& final(self)@.entities[k].identifier == old(
                            self,
                        )@.entities[k].identifier
                        &&& final(self)@.entities[k].influences.len() == 0
                    })
            },
    {
        let ghost old_world = world_views(self.entities@);
        proof {
            assert(old_world == old(self)@.entities);
            assert forall|k: int| 0 <= k < old_world.len() implies state_numeric_wf(
                (#[trigger] old_world[k]).state,
            ) && old_world[k].influences.len() == 0 by {
                assert(state_numeric_wf(old(self)@.entities[k].state));
                assert(old(self)@.entities[k].influences.len() == 0);
            }
        }
        // The clock first: it does not depend on the step computation.
        let new_time = self.current_time.add(elapsed_time);
        if !new_time.is_valid() {
            proof {
                assert(next_state_v(old(self)@, elapsed_time@) == Err::<SystemV, SimError>(
                    SimError::Numeric,
                ));
            }
            return Err(SimError::Numeric);
        }
        // Gather the influences of every interaction.
        let influences = match gather_influences(
            &self.interactions,
            &self.entities,
            elapsed_time,
        ) {
            Ok(infs) => infs,
            Err(e) => {
                proof {
                    assert(next_state_v(old(self)@, elapsed_time@) == Err::<SystemV, SimError>(
                        e,
                    ));
                }
                return Err(e);
            },
        };
        let ghost iv = influence_views(influences@);
        proof {
            assert(gather_v(
                old(self)@.interactions,
                old_world,
                elapsed_time@,
                0,
                Seq::<InfluenceV>::empty(),
            ) == Ok::<Seq<InfluenceV>, SimError>(iv));
        }
        // Attach, integrate and clear, one entity at a time.
        let n0 = self.entities.len();
        let nf = influences.len();
        let mut new_entities: Vec<Entity> = Vec::new();
        let mut done: usize = 0;
        proof {
            assert(world_views(new_entities@) =~= Seq::<EntityV>::empty());
        }
        while done < n0
            invariant
                self.interactions == old(self).interactions,
                self.current_time == old(self).current_time,
                old_world == old(self)@.entities,
                n0 == old_world.len(),
                nf == influences@.len(),
                iv == influence_views(influences@),
                all_force_carriers(iv),
                new_time@ == rat_add_v(old(self)@.current_time, elapsed_time@),
                rat_valid(new_time@),
                gather_v(
                    old(self)@.interactions,
                    old_world,
                    elapsed_time@,
                    0,
                    Seq::<InfluenceV>::empty(),
                ) == Ok::<Seq<InfluenceV>, SimError>(iv),
                forall|k: int|
                    0 <= k < old_world.len() ==> state_numeric_wf(
                        (#[trigger] old_world[k]).state,
                    ),
                forall|k: int|
                    0 <= k < old_world.len() ==> (#[trigger] old_world[k]).influences.len() == 0,
                0 <= done <= n0,
                new_entities@.len() == done,
                self.entities@.len() == n0 - done,
                step_entities_v(
                    old_world,
                    iv,
                    elapsed_time@,
                    done as int,
                    world_views(new_entities@),
                ) == step_entities_v(
                    old_world,
                    iv,
                    elapsed_time@,
                    0,
                    Seq::<EntityV>::empty(),
                ),
                forall|k: int|
                    0 <= k < n0 - done ==> (#[trigger] self.entities@[k])@ == old_world[done + k],
                forall|k: int|
                    0 <= k < done ==> (#[trigger] new_entities@[k])@ == entity_step_v(
                        old_world[k],
                        iv,
                        elapsed_time@,
                    ),
                forall|k: int|
                    0 <= k < done ==> state_quantities_valid(
                        (#[trigger] new_entities@[k])@.state,
                    ),
            decreases n0 - done,
        {
            let ghost remaining_pre = self.entities@;
            let mut ent = self.entities.remove(0);
            proof {
                assert(ent@ == old_world[done as int]);
                assert forall|k: int| 0 <= k < n0 - done - 1 implies (
                #[trigger] self.entities@[k])@ == old_world[done + 1 + k] by {
                    assert(self.entities@[k] == remaining_pre[k + 1]);
                }
            }
            let ghost e0 = ent@;
            attach_influences(&mut ent, &influences);
            ent.evolve(elapsed_time);
            ent.remove_influences();
            proof {
                assert(ent@ == entity_step_v(e0, iv, elapsed_time@));
            }
            // Reject a state that left the representable range.
            let st = ent.get_state();
            let loc_ok = st.get_location().is_valid();
            let vel_ok = st.get_velocity().is_valid();
            let frc_ok = st.get_net_force().is_valid();
            let mass_ok = st.get_mass().is_valid();
            if !(loc_ok && vel_ok && frc_ok && mass_ok) {
                proof {
                    // the computation fails on this overflowed entity
                    assert(!state_quantities_valid(ent@.state));
                    assert(step_entities_v(
                        old_world,
                        iv,
                        elapsed_time@,
                        done as int,
                        world_views(new_entities@),
                    ) == Err::<Seq<EntityV>, SimError>(SimError::Numeric));
                    assert(next_state_v(old(self)@, elapsed_time@) == Err::<SystemV, SimError>(
                        SimError::Numeric,
                    ));
                }
                return Err(SimError::Numeric);
            }
            let ghost acc_pre = world_views(new_entities@);
            proof {
                assert(state_quantities_valid(ent@.state));
                assert(step_entities_v(old_world, iv, elapsed_time@, done as int, acc_pre)
                    == step_entities_v(
                    old_world,
                    iv,
                    elapsed_time@,
                    done as int + 1,
                    acc_pre.push(ent@),
                ));
            }
            new_entities.push(ent);
            proof {
                assert(world_views(new_entities@) =~= acc_pre.push(ent@));
            }
            done = done + 1;
        }
        self.entities = new_entities;
        self.current_time = new_time;
        proof {
            assert(self@.entities.len() == old(self)@.entities.len());
            assert(self@.interactions == old(self)@.interactions);
            assert(self@.current_time == rat_add_v(old(self)@.current_time, elapsed_time@));
            assert(rat_valid(self@.current_time));
            assert(resolved_all(iv));
            assert(all_wf(iv));
            assert(forall|src: Seq<char>|
                vec_eqv(#[trigger] source_forces_v(iv, src), vec_zero()));
            assert forall|k: int| 0 <= k < old(self)@.entities.len() implies self@.entities[k]
                == entity_step_v(#[trigger] old(self)@.entities[k], iv, elapsed_time@) by {
                assert(old(self)@.entities[k] == old_world[k]);
                assert(self@.entities[k] == new_entities@[k]@);
            }
            // the computation succeeds with exactly this outcome
            assert(step_entities_v(
                old_world,
                iv,
                elapsed_time@,
                n0 as int,
                world_views(self.entities@),
            ) == Ok::<Seq<EntityV>, SimError>(world_views(self.entities@)));
            assert(next_state_v(old(self)@, elapsed_time@) == Ok::<SystemV, SimError>(self@));
            // the step preserves well-formedness of every entity
            assert forall|k: int| 0 <= k < old(self)@.entities.len() implies {
                &&& state_numeric_wf((#[trigger] self@.entities[k]).state)
                &&& self@.entities[k].state.shape == old(self)@.entities[k].state.shape
                &&& self@.entities[k].identifier == old(self)@.entities[k].identifier
                &&& self@.entities[k].influences.len() == 0
            } by {
                assert(old(self)@.entities[k] == old_world[k]);
                assert(state_quantities_valid((new_entities@[k])@.state));
                lemma_entity_step_preserves(old_world[k], iv, elapsed_time@);
            }
        }
        Ok(())
    }
}

} // verus!
