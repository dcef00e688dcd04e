//! The influence-propagation engine shared by all interaction variants:
//! one depth-first resolution per source entity over an explicit stack,
//! until every influence has returned to the body that must apply it.

use vstd::prelude::*;
use crate::contact_forces::{
    ContactForces, contact_id_v, contact_init_v, contact_probe_v, contact_react_v,
    lemma_contact_init_conserves, lemma_contact_react_conserves,
};
use crate::distribution::{
    all_force_carriers, all_wf, force_scan_v, forces_total_v, lemma_force_scan,
    lemma_source_forces_concat, lemma_source_forces_same, lemma_source_forces_valid,
    lemma_vec_eqv_refl, react_out_v, seeds_out_v, source_forces_v,
};
use crate::elastic_collision::{
    ElasticCollision, elastic_id_v, elastic_init_v, elastic_probe_v, elastic_react_v,
    elastic_scan_v, lemma_elastic_init_conserves, lemma_elastic_react_conserves,
    lemma_elastic_scan,
};
use crate::entity::{Entity, EntityV, entity_views, world_views};
use crate::geometry::touching_v;
use crate::gravity::{Gravity, gravity_id_v};
use crate::ident::id_eq;
use crate::rational::{Rat, RatV};
use crate::shape::shape_is_sphere;
use crate::state_influence::{
    InfluenceV, StateInfluence, force_change_v, influence_resolved, influence_views, influence_wf,
};
use crate::vector::{
    vec_eqv, vec_radd, vec_valid, vec_zero, lemma_vec_eqv_trans, lemma_vec_radd_congruence,
    lemma_vec_radd_shuffle, lemma_vec_radd_valid, lemma_vec_radd_zero,
};

verus! {

/// Why a simulation operation could not be completed.
#[derive(Clone, Copy, PartialEq, Eq, Structural, Debug)]
pub enum SimError {
    /// A computed quantity left the exactly representable range.
    Numeric,
    /// The propagation step budget was exhausted before the stack emptied.
    Budget,
    /// Two entities or two interactions share an identifier.
    DuplicateIdentifier,
}

/// The number of propagation steps one depth-first resolution may take.
pub const DFS_BUDGET: u64 = 1000000;

/// The closed set of interaction variants.
#[derive(Clone, Copy, PartialEq, Eq, Structural, Debug)]
pub enum Interaction {
    ContactForces(ContactForces),
    ElasticCollision(ElasticCollision),
    Gravity(Gravity),
}

/// The stable name of an interaction variant.
pub open spec fn interaction_id_of(i: Interaction) -> Seq<char> {
    match i {
        Interaction::ContactForces(_) => contact_id_v(),
        Interaction::ElasticCollision(_) => elastic_id_v(),
        Interaction::Gravity(_) => gravity_id_v(),
    }
}

/// Whether the variant's predicates read the bodies' sphere shapes.
pub open spec fn needs_spheres(i: Interaction) -> bool {
    !(i is Gravity)
}

pub open spec fn all_spheres(w: Seq<EntityV>) -> bool {
    forall|k: int| 0 <= k < w.len() ==> shape_is_sphere((#[trigger] w[k]).state.shape)
}

/// Whether some registered variant reads the bodies' sphere shapes.
pub open spec fn any_needs_spheres(is: Seq<Interaction>) -> bool {
    exists|j: int| 0 <= j < is.len() && needs_spheres(#[trigger] is[j])
}

/// The neighbour predicate of a variant.
pub open spec fn interaction_is_neighbor_v(i: Interaction, a: EntityV, b: EntityV) -> bool {
    match i {
        Interaction::ContactForces(_) => touching_v(a.state, b.state),
        Interaction::ElasticCollision(_) => touching_v(a.state, b.state),
        Interaction::Gravity(_) => true,
    }
}

/// The seed list of a variant.
pub open spec fn interaction_init_v(
    i: Interaction,
    source: EntityV,
    dt: RatV,
    neighbors: Seq<EntityV>,
) -> Seq<InfluenceV> {
    match i {
        Interaction::ContactForces(_) => contact_init_v(source, neighbors),
        Interaction::ElasticCollision(_) => elastic_init_v(source, dt, neighbors),
        Interaction::Gravity(_) => Seq::<InfluenceV>::empty(),
    }
}

/// The reaction list of a variant.
pub open spec fn interaction_react_v(
    i: Interaction,
    reactor: EntityV,
    neighbors: Seq<EntityV>,
    inbound: InfluenceV,
) -> Seq<InfluenceV> {
    match i {
        Interaction::ContactForces(_) => contact_react_v(reactor, neighbors, inbound),
        Interaction::ElasticCollision(_) => elastic_react_v(reactor, neighbors, inbound),
        Interaction::Gravity(_) => Seq::<InfluenceV>::empty(),
    }
}

/// Every influence keeps the source of its causal chain, is addressed to
/// the reactor itself or to one of the passed neighbours, and is a pure
/// force carrier.
pub proof fn lemma_react_fields(
    i: Interaction,
    reactor: EntityV,
    neighbors: Seq<EntityV>,
    inbound: InfluenceV,
)
    ensures
        ({
            let out = interaction_react_v(i, reactor, neighbors, inbound);
            forall|j: int|
                0 <= j < out.len() ==> {
                    &&& (#[trigger] out[j]).source_id == inbound.source_id
                    &&& out[j].state_change == force_change_v(out[j].state_change.net_force)
                    &&& (out[j].receiver_id == reactor.identifier || exists|k: int|
                        0 <= k < neighbors.len() && out[j].receiver_id == (
                        #[trigger] neighbors[k]).identifier)
                }
        }),
{
    match i {
        Interaction::ContactForces(_) => {
            lemma_force_scan(
                contact_probe_v(reactor, inbound),
                inbound.source_id,
                reactor.identifier,
                contact_id_v(),
                neighbors,
            );
            let (infs, forces) = force_scan_v(
                contact_probe_v(reactor, inbound),
                inbound.source_id,
                reactor.identifier,
                contact_id_v(),
                neighbors,
            );
            let out = interaction_react_v(i, reactor, neighbors, inbound);
            assert(forall|j: int| 0 <= j < infs.len() ==> infs[j] == #[trigger] out[j]);
        },
        Interaction::ElasticCollision(_) => {
            lemma_force_scan(
                elastic_probe_v(reactor, inbound),
                inbound.source_id,
                reactor.identifier,
                elastic_id_v(),
                neighbors,
            );
            let (infs, forces) = force_scan_v(
                elastic_probe_v(reactor, inbound),
                inbound.source_id,
                reactor.identifier,
                elastic_id_v(),
                neighbors,
            );
            let out = interaction_react_v(i, reactor, neighbors, inbound);
            assert(forall|j: int| 0 <= j < infs.len() ==> infs[j] == #[trigger] out[j]);
        },
        Interaction::Gravity(_) => {},
    }
}

/// Conservation at a reaction, for the variants that take part in the
/// propagation: the outgoing forces sum to exactly the inbound force.
pub proof fn lemma_react_conserves(
    i: Interaction,
    reactor: EntityV,
    neighbors: Seq<EntityV>,
    inbound: InfluenceV,
)
    ensures
        !(i is Gravity) && all_wf(interaction_react_v(i, reactor, neighbors, inbound))
            ==> vec_eqv(
            forces_total_v(interaction_react_v(i, reactor, neighbors, inbound)),
            inbound.state_change.net_force,
        ),
{
    match i {
        Interaction::ContactForces(_) => {
            lemma_contact_react_conserves(reactor, neighbors, inbound);
        },
        Interaction::ElasticCollision(_) => {
            lemma_elastic_react_conserves(reactor, neighbors, inbound);
        },
        Interaction::Gravity(_) => {},
    }
}

/// Conservation at a seed: the forces of a seed list sum to exactly zero.
pub proof fn lemma_init_conserves(
    i: Interaction,
    source: EntityV,
    dt: RatV,
    neighbors: Seq<EntityV>,
)
    ensures
        all_wf(interaction_init_v(i, source, dt, neighbors)) ==> vec_eqv(
            forces_total_v(interaction_init_v(i, source, dt, neighbors)),
            vec_zero(),
        ),
{
    match i {
        Interaction::ContactForces(_) => {
            lemma_contact_init_conserves(source, neighbors);
        },
        Interaction::ElasticCollision(_) => {
            lemma_elastic_init_conserves(source, dt, neighbors);
        },
        Interaction::Gravity(_) => {},
    }
}

/// Every seed influence names the source as its origin and is a pure
/// force carrier.
pub proof fn lemma_init_fields(i: Interaction, source: EntityV, dt: RatV, neighbors: Seq<EntityV>)
    ensures
        ({
            let out = interaction_init_v(i, source, dt, neighbors);
            forall|j: int|
                0 <= j < out.len() ==> {
                    &&& (#[trigger] out[j]).source_id == source.identifier
                    &&& out[j].state_change == force_change_v(out[j].state_change.net_force)
                    &&& (out[j].receiver_id == source.identifier || exists|k: int|
                        0 <= k < neighbors.len() && out[j].receiver_id == (
                        #[trigger] neighbors[k]).identifier)
                }
        }),
{
    match i {
        Interaction::ContactForces(_) => {
            lemma_force_scan(
                source.state,
                source.identifier,
                source.identifier,
                contact_id_v(),
                neighbors,
            );
            let (infs, forces) = force_scan_v(
                source.state,
                source.identifier,
                source.identifier,
                contact_id_v(),
                neighbors,
            );
            let out = interaction_init_v(i, source, dt, neighbors);
            assert(forall|j: int| 0 <= j < infs.len() ==> infs[j] == #[trigger] out[j]);
        },
        Interaction::ElasticCollision(_) => {
            lemma_elastic_scan(source, dt, neighbors);
            let (infs, forces) = elastic_scan_v(source, dt, neighbors);
            let out = interaction_init_v(i, source, dt, neighbors);
            assert(forall|j: int| 0 <= j < infs.len() ==> infs[j] == #[trigger] out[j]);
        },
        Interaction::Gravity(_) => {},
    }
}

/// Every influence is addressed to an entity of the world.
pub open spec fn receivers_present(infs: Seq<InfluenceV>, w: Seq<EntityV>) -> bool {
    forall|j: int|
        0 <= j < infs.len() ==> exists|k: int|
            0 <= k < w.len() && (#[trigger] infs[j]).receiver_id == (#[trigger] w[k]).identifier
}

/// Every influence has returned home.
pub open spec fn resolved_all(infs: Seq<InfluenceV>) -> bool {
    forall|j: int| 0 <= j < infs.len() ==> influence_resolved(#[trigger] infs[j])
}

/// The first position at or after `k` whose entity carries `id`; the
/// length of the world when none does.
pub open spec fn find_entity_from_v(w: Seq<EntityV>, id: Seq<char>, k: int) -> int
    decreases w.len() - k,
{
    if k < 0 || k >= w.len() {
        w.len() as int
    } else if w[k].identifier == id {
        k
    } else {
        find_entity_from_v(w, id, k + 1)
    }
}

/// The first match of a scan that found `r` with no earlier match.
proof fn lemma_find_entity_first(w: Seq<EntityV>, id: Seq<char>, k: int, r: int)
    requires
        0 <= k <= r < w.len(),
        w[r].identifier == id,
        forall|m: int| k <= m < r ==> (#[trigger] w[m]).identifier != id,
    ensures
        find_entity_from_v(w, id, k) == r,
    decreases r - k,
{
    if k < r {
        lemma_find_entity_first(w, id, k + 1, r);
    }
}

/// The host's neighbours under a variant: every other entity of the world
/// that satisfies the variant's neighbour predicate, in world order.
pub open spec fn neighbors_of_v(i: Interaction, w: Seq<EntityV>, host: EntityV) -> Seq<EntityV> {
    w.filter(
        |e: EntityV| e.identifier != host.identifier && interaction_is_neighbor_v(i, host, e),
    )
}

/// The depth-first resolution itself, one propagation step per unit of
/// fuel: a popped influence that has returned home joins `resolved`; any
/// other is redistributed by its receiver and the reaction is pushed back.
/// Fails when a receiver is missing, when a computed force leaves the
/// representable range, or when the fuel runs out first.
pub open spec fn dfs_v(
    i: Interaction,
    w: Seq<EntityV>,
    stack: Seq<InfluenceV>,
    fuel: nat,
    resolved: Seq<InfluenceV>,
) -> Result<Seq<InfluenceV>, SimError>
    decreases fuel,
{
    if stack.len() == 0 {
        Ok(resolved)
    } else if fuel == 0 {
        Err(SimError::Budget)
    } else {
        let inf = stack.last();
        let rest = stack.drop_last();
        if inf.transmitter_id == inf.receiver_id {
            dfs_v(i, w, rest, (fuel - 1) as nat, resolved.push(inf))
        } else {
            let ridx = find_entity_from_v(w, inf.receiver_id, 0);
            if ridx >= w.len() {
                Err(SimError::Numeric)
            } else {
                let outs = interaction_react_v(i, w[ridx], neighbors_of_v(i, w, w[ridx]), inf);
                if !all_wf(outs) {
                    Err(SimError::Numeric)
                } else {
                    dfs_v(i, w, rest + outs, (fuel - 1) as nat, resolved)
                }
            }
        }
    }
}

/// One depth-first resolution per source from position `k` on, in world
/// order, appending the finalized lists to `acc`.
pub open spec fn resolve_sources_v(
    i: Interaction,
    w: Seq<EntityV>,
    dt: RatV,
    k: int,
    acc: Seq<InfluenceV>,
) -> Result<Seq<InfluenceV>, SimError>
    decreases w.len() - k,
{
    if k < 0 || k >= w.len() {
        Ok(acc)
    } else {
        let seeds = interaction_init_v(i, w[k], dt, neighbors_of_v(i, w, w[k]));
        if !all_wf(seeds) {
            Err(SimError::Numeric)
        } else {
            match dfs_v(i, w, seeds, DFS_BUDGET as nat, Seq::<InfluenceV>::empty()) {
                Ok(res) => resolve_sources_v(i, w, dt, k + 1, acc + res),
                Err(e) => Err(e),
            }
        }
    }
}

/// What [`Interaction::get_influences`] computes.
pub open spec fn get_influences_v(i: Interaction, w: Seq<EntityV>, dt: RatV) -> Result<
    Seq<InfluenceV>,
    SimError,
> {
    resolve_sources_v(i, w, dt, 0, Seq::<InfluenceV>::empty())
}

impl Interaction {
    /// The stable name of the variant.
    pub fn get_identifier(&self) -> (r: &'static str)
        ensures
            r@ == interaction_id_of(*self),
    {
        match self {
            Interaction::ContactForces(c) => c.get_identifier(),
            Interaction::ElasticCollision(e) => e.get_identifier(),
            Interaction::Gravity(g) => g.get_identifier(),
        }
    }

    /// The variant's cheap candidate filter.
    pub fn is_neighbor(&self, transmitter: &Entity, receiver: &Entity) -> (r: bool)
        requires
            needs_spheres(*self) ==> shape_is_sphere(transmitter@.state.shape) && shape_is_sphere(
                receiver@.state.shape,
            ),
        ensures
            r == interaction_is_neighbor_v(*self, transmitter@, receiver@),
    {
        match self {
            Interaction::ContactForces(c) => c.is_neighbor(transmitter, receiver),
            Interaction::ElasticCollision(e) => e.is_neighbor(transmitter, receiver),
            Interaction::Gravity(g) => g.is_neighbor(transmitter, receiver),
        }
    }

    /// The variant's seeding rule.
    pub fn init(&self, source: &Entity, neighbors: Vec<&Entity>, step_size: &Rat) -> (r: Vec<
        StateInfluence,
    >)
        requires
            needs_spheres(*self) ==> shape_is_sphere(source@.state.shape) && (forall|k: int|
                0 <= k < neighbors@.len() ==> shape_is_sphere(
                    (#[trigger] neighbors@[k])@.state.shape,
                )),
        ensures
            influence_views(r@) == interaction_init_v(
                *self,
                source@,
                step_size@,
                entity_views(neighbors@),
            ),
    {
        match self {
            Interaction::ContactForces(c) => c.init(source, neighbors, step_size),
            Interaction::ElasticCollision(e) => e.init(source, neighbors, step_size),
            Interaction::Gravity(g) => g.init(source, neighbors, step_size),
        }
    }

    /// The variant's recursive redistribution rule.
    pub fn react(
        &self,
        reactor: &Entity,
        neighbors: Vec<&Entity>,
        influence: StateInfluence,
        step_size: &Rat,
    ) -> (r: Vec<StateInfluence>)
        requires
            reactor@.identifier == influence@.receiver_id,
            needs_spheres(*self) ==> shape_is_sphere(reactor@.state.shape) && (forall|k: int|
                0 <= k < neighbors@.len() ==> shape_is_sphere(
                    (#[trigger] neighbors@[k])@.state.shape,
                )),
        ensures
            influence_views(r@) == interaction_react_v(
                *self,
                reactor@,
                entity_views(neighbors@),
                influence@,
            ),
    {
        match self {
            Interaction::ContactForces(c) => c.react(reactor, neighbors, influence, step_size),
            Interaction::ElasticCollision(e) => e.react(reactor, neighbors, influence, step_size),
            Interaction::Gravity(g) => g.react(reactor, neighbors, influence, step_size),
        }
    }

    /// Resolve an influence stack by iterated redistribution: a popped
    /// influence that has returned home is finalized; any other is handed
    /// to its receiver, whose reaction is pushed back onto the stack.
    ///
    /// On success every output influence is resolved and carries a real
    /// force, and (for the variants that take part in the propagation) the
    /// per-source force sums of the output are exactly those of the
    /// initial stack.  The error reports an overflow of the exact
    /// arithmetic or an exhausted step budget.
    #[verifier::rlimit(100)]
    pub fn dfs(
        &self,
        world: &Vec<Entity>,
        influence_stack: &mut Vec<StateInfluence>,
        step_size: &Rat,
        budget: u64,
    ) -> (r: Result<Vec<StateInfluence>, SimError>)
        requires
            needs_spheres(*self) ==> all_spheres(world_views(world@)),
            all_wf(influence_views(old(influence_stack)@)),
            all_force_carriers(influence_views(old(influence_stack)@)),
            receivers_present(influence_views(old(influence_stack)@), world_views(world@)),
        ensures
            r matches Ok(out) ==> dfs_v(
                *self,
                world_views(world@),
                influence_views(old(influence_stack)@),
                budget as nat,
                Seq::<InfluenceV>::empty(),
            ) == Ok::<Seq<InfluenceV>, SimError>(influence_views(out@)),
            r matches Err(e) ==> dfs_v(
                *self,
                world_views(world@),
                influence_views(old(influence_stack)@),
                budget as nat,
                Seq::<InfluenceV>::empty(),
            ) == Err::<Seq<InfluenceV>, SimError>(e),
            r matches Ok(out) ==> {
                &&& resolved_all(influence_views(out@))
                &&& all_wf(influence_views(out@))
                &&& all_force_carriers(influence_views(out@))
                &&& final(influence_stack)@.len() == 0
                &&& old(influence_stack)@.len() == 0 ==> out@.len() == 0
                &&& !(*self is Gravity) ==> forall|src: Seq<char>|
                    vec_eqv(
                        #[trigger] source_forces_v(influence_views(out@), src),
                        source_forces_v(influence_views(old(influence_stack)@), src),
                    )
            },
    {
        let ghost w = world_views(world@);
        let ghost s0 = influence_views(old(influence_stack)@);
        let mut final_influences: Vec<StateInfluence> = Vec::new();
        let mut fuel: u64 = budget;
        proof {
            assert(influence_views(final_influences@) =~= Seq::<InfluenceV>::empty());
            if !(*self is Gravity) {
                assert forall|src: Seq<char>| vec_eqv(
                    vec_radd(
                        #[trigger] source_forces_v(influence_views(influence_stack@), src),
                        source_forces_v(influence_views(final_influences@), src),
                    ),
                    source_forces_v(s0, src),
                ) by {
                    assert(source_forces_v(influence_views(final_influences@), src)
                        == vec_zero());
                    lemma_vec_radd_zero(source_forces_v(s0, src));
                    lemma_vec_eqv_refl(source_forces_v(s0, src));
                }
            }
        }
        while fuel > 0 && influence_stack.len() > 0
            invariant
                w == world_views(world@),
                s0 == influence_views(old(influence_stack)@),
                needs_spheres(*self) ==> all_spheres(w),
                all_wf(influence_views(influence_stack@)),
                all_force_carriers(influence_views(influence_stack@)),
                receivers_present(influence_views(influence_stack@), w),
                all_wf(influence_views(final_influences@)),
                all_force_carriers(influence_views(final_influences@)),
                resolved_all(influence_views(final_influences@)),
                s0.len() == 0 ==> influence_stack@.len() == 0 && final_influences@.len() == 0,
                dfs_v(
                    *self,
                    w,
                    influence_views(influence_stack@),
                    fuel as nat,
                    influence_views(final_influences@),
                ) == dfs_v(*self, w, s0, budget as nat, Seq::<InfluenceV>::empty()),
                !(*self is Gravity) ==> forall|src: Seq<char>|
                    vec_eqv(
                        vec_radd(
                            #[trigger] source_forces_v(influence_views(influence_stack@), src),
                            source_forces_v(influence_views(final_influences@), src),
                        ),
                        source_forces_v(s0, src),
                    ),
            decreases fuel,
        {
            let ghost sv_pre = influence_views(influence_stack@);
            let influence = match influence_stack.pop() {
                Some(x) => x,
                None => {
                    return Err(SimError::Numeric);
                },
            };
            let ghost p = sv_pre.last();
            let ghost sv_new = influence_views(influence_stack@);
            proof {
                assert(sv_new =~= sv_pre.drop_last());
                assert(influence@ == p);
                assert(influence_wf(p));
                assert forall|j: int| 0 <= j < sv_new.len() implies influence_wf(
                    #[trigger] sv_new[j],
                ) && sv_new[j].state_change == force_change_v(sv_new[j].state_change.net_force)
                    && exists|k: int|
                    0 <= k < w.len() && sv_new[j].receiver_id == (#[trigger] w[k]).identifier by {
                    assert(sv_new[j] == sv_pre[j]);
                    assert(influence_wf(sv_pre[j]));
                    assert(sv_pre[j].state_change == force_change_v(
                        sv_pre[j].state_change.net_force,
                    ));
                }
                assert(p.state_change == force_change_v(p.state_change.net_force));
            }
            if id_eq(influence.get_transmitter_id(), influence.get_receiver_id()) {
                let ghost fv_pre = influence_views(final_influences@);
                final_influences.push(influence);
                proof {
                    assert(influence_views(final_influences@) =~= fv_pre.push(p));
                    let fv_new = influence_views(final_influences@);
                    assert forall|j: int| 0 <= j < fv_new.len() implies influence_wf(
                        #[trigger] fv_new[j],
                    ) && fv_new[j].state_change == force_change_v(fv_new[j].state_change.net_force)
                        && influence_resolved(fv_new[j]) by {
                        if j < fv_new.len() - 1 {
                            assert(fv_new[j] == fv_pre[j]);
                        } else {
                            assert(fv_new[j] == p);
                        }
                    }
                    // one resolution step of the computation
                    assert(dfs_v(*self, w, sv_pre, fuel as nat, fv_pre) == dfs_v(
                        *self,
                        w,
                        sv_new,
                        (fuel - 1) as nat,
                        fv_pre.push(p),
                    ));
                    if !(*self is Gravity) {
                        assert forall|src: Seq<char>| vec_eqv(
                            vec_radd(
                                #[trigger] source_forces_v(sv_new, src),
                                source_forces_v(fv_pre.push(p), src),
                            ),
                            source_forces_v(s0, src),
                        ) by {
                            assert(vec_eqv(
                                vec_radd(
                                    source_forces_v(sv_pre, src),
                                    source_forces_v(fv_pre, src),
                                ),
                                source_forces_v(s0, src),
                            ));
                            assert((fv_pre.push(p)).drop_last() =~= fv_pre);
                            if p.source_id == src {
                                lemma_vec_radd_shuffle(
                                    source_forces_v(sv_new, src),
                                    source_forces_v(fv_pre, src),
                                    p.state_change.net_force,
                                );
                            }
                        }
                    }
                }
            } else {
                // Locate the receiver; the stack invariant guarantees it
                // is in the world.
                let rid = influence.get_receiver_id();
                let n = world.len();
                let mut j: usize = 0;
                let mut ridx: usize = 0;
                let mut found: bool = false;
                while j < n
                    invariant
                        w == world_views(world@),
                        n == world@.len(),
                        0 <= j <= n,
                        rid@ == p.receiver_id,
                        found ==> ridx < n && w[ridx as int].identifier == p.receiver_id && (
                        forall|m: int|
                            0 <= m < ridx ==> (#[trigger] w[m]).identifier != p.receiver_id),
                        !found ==> forall|m: int|
                            0 <= m < j ==> (#[trigger] w[m]).identifier != p.receiver_id,
                    decreases n - j,
                {
                    if !found && id_eq(world[j].get_identity(), rid) {
                        ridx = j;
                        found = true;
                    }
                    j = j + 1;
                }
                proof {
                    assert(sv_pre[sv_pre.len() - 1] == p);
                    assert(exists|k: int|
                        0 <= k < w.len() && p.receiver_id == (#[trigger] w[k]).identifier);
                    assert(found);
                }
                if !found {
                    return Err(SimError::Numeric);
                }
                let receiver = &world[ridx];
                // Collect the receiver's neighbours from the world.
                let mut neighbors: Vec<&Entity> = Vec::new();
                let mut m: usize = 0;
                proof {
                    reveal(Seq::filter);
                    assert(entity_views(neighbors@) =~= neighbors_of_v(
                        *self,
                        w.subrange(0, 0),
                        w[ridx as int],
                    ));
                }
                while m < n
                    invariant
                        w == world_views(world@),
                        n == world@.len(),
                        0 <= m <= n,
                        needs_spheres(*self) ==> all_spheres(w),
                        ridx < n,
                        receiver@ == w[ridx as int],
                        entity_views(neighbors@) == neighbors_of_v(
                            *self,
                            w.subrange(0, m as int),
                            w[ridx as int],
                        ),
                        forall|k: int|
                            0 <= k < neighbors@.len() ==> exists|idx: int|
                                0 <= idx < w.len() && (#[trigger] neighbors@[k])@ == w[idx],
                    decreases n - m,
                {
                    let candidate = &world[m];
                    proof {
                        reveal(Seq::filter);
                        assert(candidate@ == w[m as int]);
                        let pre = w.subrange(0, m as int);
                        let post = w.subrange(0, m as int + 1);
                        assert(post.drop_last() =~= pre);
                        assert(post.last() == w[m as int]);
                    }
                    if !id_eq(candidate.get_identity(), receiver.get_identity()) && self.is_neighbor(
                        receiver,
                        candidate,
                    ) {
                        neighbors.push(candidate);
                        proof {
                            reveal(Seq::filter);
                            assert(entity_views(neighbors@) =~= entity_views(
                                neighbors@.drop_last(),
                            ).push(w[m as int]));
                            assert(entity_views(neighbors@) =~= neighbors_of_v(
                                *self,
                                w.subrange(0, m as int + 1),
                                w[ridx as int],
                            ));
                            assert forall|k: int| 0 <= k < neighbors@.len() implies exists|
                                idx: int,
                            |
                                0 <= idx < w.len() && (#[trigger] neighbors@[k])@ == w[idx] by {
                                if k < neighbors@.len() - 1 {
                                    assert(neighbors@[k] == neighbors@.drop_last()[k]);
                                } else {
                                    assert(neighbors@[k]@ == w[m as int]);
                                }
                            }
                        }
                    } else {
                        proof {
                            reveal(Seq::filter);
                            assert(entity_views(neighbors@) =~= neighbors_of_v(
                                *self,
                                w.subrange(0, m as int + 1),
                                w[ridx as int],
                            ));
                        }
                    }
                    m = m + 1;
                }
                let ghost nv = entity_views(neighbors@);
                proof {
                    assert(w.subrange(0, n as int) =~= w);
                    assert(nv == neighbors_of_v(*self, w, w[ridx as int]));
                    assert(receiver@.identifier == influence@.receiver_id);
                    lemma_find_entity_first(w, p.receiver_id, 0, ridx as int);
                    if needs_spheres(*self) {
                        assert forall|k: int| 0 <= k < neighbors@.len() implies shape_is_sphere(
                            (#[trigger] neighbors@[k])@.state.shape,
                        ) by {
                            let idx = choose|idx: int|
                                0 <= idx < w.len() && neighbors@[k]@ == w[idx];
                            assert(shape_is_sphere(w[idx].state.shape));
                        }
                    }
                }
                let mut outputs = self.react(receiver, neighbors, influence, step_size);
                let ghost ov = influence_views(outputs@);
                proof {
                    assert(ov == interaction_react_v(
                        *self,
                        w[ridx as int],
                        neighbors_of_v(*self, w, w[ridx as int]),
                        p,
                    ));
                }
                // Stop at the first overflowed force.
                let cnt = outputs.len();
                let mut v: usize = 0;
                #[verifier::loop_isolation(false)]
                while v < cnt
                    invariant
                        cnt == outputs@.len(),
                        0 <= v <= cnt,
                        ov == influence_views(outputs@),
                        forall|q: int| 0 <= q < v ==> influence_wf(#[trigger] ov[q]),
                    decreases cnt - v,
                {
                    if !outputs[v].get_state_change().get_net_force().is_valid() {
                        proof {
                            // the computation fails on this overflowed force
                            assert(ov[v as int] == outputs@[v as int]@);
                            assert(!influence_wf(ov[v as int]));
                            assert(!all_wf(ov));
                            assert(sv_pre.len() > 0);
                            assert(p == sv_pre.last());
                            assert(p.transmitter_id != p.receiver_id);
                            assert(find_entity_from_v(w, p.receiver_id, 0) == ridx as int);
                            assert(interaction_react_v(
                                *self,
                                w[ridx as int],
                                neighbors_of_v(*self, w, w[ridx as int]),
                                p,
                            ) == ov);
                            assert(dfs_v(
                                *self,
                                w,
                                sv_pre,
                                fuel as nat,
                                influence_views(final_influences@),
                            ) == Err::<Seq<InfluenceV>, SimError>(SimError::Numeric));
                            assert(dfs_v(
                                *self,
                                w,
                                sv_pre,
                                fuel as nat,
                                influence_views(final_influences@),
                            ) == dfs_v(*self, w, s0, budget as nat, Seq::<InfluenceV>::empty()));
                            assert(dfs_v(*self, w, s0, budget as nat, Seq::<InfluenceV>::empty())
                                == Err::<Seq<InfluenceV>, SimError>(SimError::Numeric));
                        }
                        return Err(SimError::Numeric);
                    }
                    v = v + 1;
                }
                proof {
                    assert(all_wf(ov));
                }
                let ghost fv = influence_views(final_influences@);
                influence_stack.append(&mut outputs);
                proof {
                    let sv_app = influence_views(influence_stack@);
                    assert(sv_app =~= sv_new + ov);
                    lemma_react_fields(*self, receiver@, nv, p);
                    // one redistribution step of the computation
                    assert(dfs_v(*self, w, sv_pre, fuel as nat, fv) == dfs_v(
                        *self,
                        w,
                        sv_new + ov,
                        (fuel - 1) as nat,
                        fv,
                    ));
                    // well-formedness, carrier shape and receiver presence of
                    // the new stack
                    assert forall|q: int| 0 <= q < sv_app.len() implies influence_wf(
                        #[trigger] sv_app[q],
                    ) && sv_app[q].state_change == force_change_v(sv_app[q].state_change.net_force)
                        && exists|k: int|
                        0 <= k < w.len() && sv_app[q].receiver_id == (
                        #[trigger] w[k]).identifier by {
                        if q < sv_new.len() {
                            assert(sv_app[q] == sv_new[q]);
                            assert(influence_wf(sv_new[q]));
                            assert(sv_new[q].state_change == force_change_v(
                                sv_new[q].state_change.net_force,
                            ));
                        } else {
                            let q2 = q - sv_new.len();
                            assert(sv_app[q] == ov[q2]);
                            assert(influence_wf(ov[q2]));
                            assert(ov[q2].state_change == force_change_v(
                                ov[q2].state_change.net_force,
                            ));
                            if ov[q2].receiver_id == receiver@.identifier {
                                assert(sv_app[q].receiver_id == w[ridx as int].identifier);
                            } else {
                                let k2 = choose|k2: int|
                                    0 <= k2 < nv.len() && ov[q2].receiver_id == nv[k2].identifier;
                                let idx = choose|idx: int|
                                    0 <= idx < w.len() && neighbors@[k2]@ == w[idx];
                                assert(nv[k2] == neighbors@[k2]@);
                                assert(sv_app[q].receiver_id == w[idx].identifier);
                            }
                        }
                    }
                    // conservation of the per-source sums
                    if !(*self is Gravity) {
                        lemma_react_conserves(*self, receiver@, nv, p);
                        assert(vec_eqv(forces_total_v(ov), p.state_change.net_force));
                        assert forall|src: Seq<char>| vec_eqv(
                            vec_radd(
                                #[trigger] source_forces_v(sv_app, src),
                                source_forces_v(fv, src),
                            ),
                            source_forces_v(s0, src),
                        ) by {
                            assert(vec_eqv(
                                vec_radd(source_forces_v(sv_pre, src), source_forces_v(fv, src)),
                                source_forces_v(s0, src),
                            ));
                            lemma_source_forces_concat(sv_new, ov, src);
                            lemma_source_forces_valid(sv_new, src);
                            lemma_source_forces_valid(fv, src);
                            lemma_source_forces_valid(ov, src);
                            lemma_source_forces_same(ov, p.source_id);
                            let a = source_forces_v(sv_app, src);
                            let b = vec_radd(source_forces_v(sv_new, src), source_forces_v(ov, src));
                            let fvs = source_forces_v(fv, src);
                            if p.source_id == src {
                                let c = vec_radd(
                                    source_forces_v(sv_new, src),
                                    p.state_change.net_force,
                                );
                                assert(source_forces_v(ov, src) == forces_total_v(ov));
                                lemma_vec_eqv_refl(source_forces_v(sv_new, src));
                                lemma_vec_radd_congruence(
                                    source_forces_v(sv_new, src),
                                    source_forces_v(sv_new, src),
                                    source_forces_v(ov, src),
                                    p.state_change.net_force,
                                );
                                // a ~ b ~ c, then plug into the invariant
                                lemma_vec_radd_valid(
                                    source_forces_v(sv_new, src),
                                    source_forces_v(ov, src),
                                );
                                lemma_vec_eqv_trans(a, b, c);
                                lemma_vec_eqv_refl(fvs);
                                lemma_vec_radd_congruence(a, c, fvs, fvs);
                                assert(source_forces_v(sv_pre, src) == c);
                                lemma_vec_radd_valid(
                                    source_forces_v(sv_new, src),
                                    p.state_change.net_force,
                                );
                                lemma_vec_radd_valid(c, fvs);
                                lemma_vec_eqv_trans(
                                    vec_radd(a, fvs),
                                    vec_radd(c, fvs),
                                    source_forces_v(s0, src),
                                );
                            } else {
                                assert(source_forces_v(ov, src) == vec_zero());
                                lemma_vec_radd_zero(source_forces_v(sv_new, src));
                                assert(b == source_forces_v(sv_new, src));
                                assert(source_forces_v(sv_pre, src) == source_forces_v(
                                    sv_new,
                                    src,
                                ));
                                lemma_vec_eqv_refl(fvs);
                                lemma_vec_radd_congruence(a, b, fvs, fvs);
                                lemma_vec_radd_valid(b, fvs);
                                lemma_vec_eqv_trans(
                                    vec_radd(a, fvs),
                                    vec_radd(b, fvs),
                                    source_forces_v(s0, src),
                                );
                            }
                        }
                    }
                }
            }
            fuel = fuel - 1;
        }
        if influence_stack.len() > 0 {
            proof {
                // the loop stopped with work left, so the fuel ran out
                assert(fuel == 0);
                assert(dfs_v(
                    *self,
                    w,
                    influence_views(influence_stack@),
                    fuel as nat,
                    influence_views(final_influences@),
                ) == Err::<Seq<InfluenceV>, SimError>(SimError::Budget));
            }
            return Err(SimError::Budget);
        }
        proof {
            assert(influence_views(influence_stack@) =~= Seq::<InfluenceV>::empty());
            let fv = influence_views(final_influences@);
            assert(dfs_v(*self, w, influence_views(influence_stack@), fuel as nat, fv) == Ok::<Seq<InfluenceV>, SimError>(fv));
            if !(*self is Gravity) {
                assert forall|src: Seq<char>| vec_eqv(
                    #[trigger] source_forces_v(fv, src),
                    source_forces_v(s0, src),
                ) by {
                    assert(vec_eqv(
                        vec_radd(
                            source_forces_v(influence_views(influence_stack@), src),
                            source_forces_v(fv, src),
                        ),
                        source_forces_v(s0, src),
                    ));
                    assert(source_forces_v(influence_views(influence_stack@), src) == vec_zero());
                    lemma_vec_radd_zero(source_forces_v(fv, src));
                }
            }
        }
        Ok(final_influences)
    }

    /// One depth-first resolution per source entity, in world order; the
    /// finalized influences of all sources concatenated.
    ///
    /// On success every output influence is resolved and carries a real
    /// force, and for every source the forces of the influences whose
    /// chain originated there sum to exactly zero: each seed list sums to
    /// zero and every redistribution preserves its sum.
    #[verifier::rlimit(100)]
    pub fn get_influences(&self, world: &Vec<Entity>, step_size: &Rat) -> (r: Result<
        Vec<StateInfluence>,
        SimError,
    >)
        requires
            needs_spheres(*self) ==> all_spheres(world_views(world@)),
        ensures
            r matches Ok(out) ==> get_influences_v(*self, world_views(world@), step_size@)
                == Ok::<Seq<InfluenceV>, SimError>(influence_views(out@)),
            r matches Err(e) ==> get_influences_v(*self, world_views(world@), step_size@)
                == Err::<Seq<InfluenceV>, SimError>(e),
            r matches Ok(out) ==> {
                &&& resolved_all(influence_views(out@))
                &&& all_wf(influence_views(out@))
                &&& all_force_carriers(influence_views(out@))
                &&& forall|src: Seq<char>|
                    vec_eqv(
                        #[trigger] source_forces_v(influence_views(out@), src),
                        vec_zero(),
                    )
            },
    {
        let ghost w = world_views(world@);
        let mut influences: Vec<StateInfluence> = Vec::new();
        let n = world.len();
        let mut si: usize = 0;
        proof {
            assert(influence_views(influences@) =~= Seq::<InfluenceV>::empty());
            assert forall|src: Seq<char>| vec_eqv(
                #[trigger] source_forces_v(influence_views(influences@), src),
                vec_zero(),
            ) by {
                lemma_vec_eqv_refl(vec_zero());
            }
        }
        while si < n
            invariant
                w == world_views(world@),
                n == world@.len(),
                0 <= si <= n,
                needs_spheres(*self) ==> all_spheres(w),
                all_wf(influence_views(influences@)),
                all_force_carriers(influence_views(influences@)),
                resolved_all(influence_views(influences@)),
                resolve_sources_v(*self, w, step_size@, si as int, influence_views(influences@))
                    == get_influences_v(*self, w, step_size@),
                forall|src: Seq<char>|
                    vec_eqv(
                        #[trigger] source_forces_v(influence_views(influences@), src),
                        vec_zero(),
                    ),
            decreases n - si,
        {
            let source = &world[si];
            proof {
                assert(source@ == w[si as int]);
            }
            // Collect the source's neighbours from the world.
            let mut neighbors: Vec<&Entity> = Vec::new();
            let mut m: usize = 0;
            proof {
                reveal(Seq::filter);
                assert(entity_views(neighbors@) =~= neighbors_of_v(
                    *self,
                    w.subrange(0, 0),
                    w[si as int],
                ));
            }
            while m < n
                invariant
                    w == world_views(world@),
                    n == world@.len(),
                    0 <= m <= n,
                    needs_spheres(*self) ==> all_spheres(w),
                    si < n,
                    source@ == w[si as int],
                    entity_views(neighbors@) == neighbors_of_v(
                        *self,
                        w.subrange(0, m as int),
                        w[si as int],
                    ),
                    forall|k: int|
                        0 <= k < neighbors@.len() ==> exists|idx: int|
                            0 <= idx < w.len() && (#[trigger] neighbors@[k])@ == w[idx],
                decreases n - m,
            {
                let candidate = &world[m];
                proof {
                    reveal(Seq::filter);
                    assert(candidate@ == w[m as int]);
                    let pre = w.subrange(0, m as int);
                    let post = w.subrange(0, m as int + 1);
                    assert(post.drop_last() =~= pre);
                    assert(post.last() == w[m as int]);
                }
                if !id_eq(candidate.get_identity(), source.get_identity()) && self.is_neighbor(
                    source,
                    candidate,
                ) {
                    neighbors.push(candidate);
                    proof {
                        reveal(Seq::filter);
                        assert(entity_views(neighbors@) =~= entity_views(
                            neighbors@.drop_last(),
                        ).push(w[m as int]));
                        assert(entity_views(neighbors@) =~= neighbors_of_v(
                            *self,
                            w.subrange(0, m as int + 1),
                            w[si as int],
                        ));
                        assert forall|k: int| 0 <= k < neighbors@.len() implies exists|idx: int|
                            0 <= idx < w.len() && (#[trigger] neighbors@[k])@ == w[idx] by {
                            if k < neighbors@.len() - 1 {
                                assert(neighbors@[k] == neighbors@.drop_last()[k]);
                            } else {
                                assert(neighbors@[k]@ == w[m as int]);
                            }
                        }
                    }
                } else {
                    proof {
                        reveal(Seq::filter);
                        assert(entity_views(neighbors@) =~= neighbors_of_v(
                            *self,
                            w.subrange(0, m as int + 1),
                            w[si as int],
                        ));
                    }
                }
                m = m + 1;
            }
            let ghost nv = entity_views(neighbors@);
            proof {
                assert(w.subrange(0, n as int) =~= w);
                assert(nv == neighbors_of_v(*self, w, w[si as int]));
                if needs_spheres(*self) {
                    assert forall|k: int| 0 <= k < neighbors@.len() implies shape_is_sphere(
                        (#[trigger] neighbors@[k])@.state.shape,
                    ) by {
                        let idx = choose|idx: int| 0 <= idx < w.len() && neighbors@[k]@ == w[idx];
                        assert(shape_is_sphere(w[idx].state.shape));
                    }
                }
            }
            let mut influence_stack = self.init(source, neighbors, step_size);
            let ghost sv = influence_views(influence_stack@);
            proof {
                assert(sv == interaction_init_v(
                    *self,
                    w[si as int],
                    step_size@,
                    neighbors_of_v(*self, w, w[si as int]),
                ));
            }
            // Stop at the first overflowed seed force.
            let cnt = influence_stack.len();
            let mut v: usize = 0;
            #[verifier::loop_isolation(false)]
            while v < cnt
                invariant
                    cnt == influence_stack@.len(),
                    0 <= v <= cnt,
                    sv == influence_views(influence_stack@),
                    forall|q: int| 0 <= q < v ==> influence_wf(#[trigger] sv[q]),
                decreases cnt - v,
            {
                if !influence_stack[v].get_state_change().get_net_force().is_valid() {
                    proof {
                        // the computation fails on this overflowed seed
                        assert(sv[v as int] == influence_stack@[v as int]@);
                        assert(!all_wf(sv));
                        assert(resolve_sources_v(
                            *self,
                            w,
                            step_size@,
                            si as int,
                            influence_views(influences@),
                        ) == Err::<Seq<InfluenceV>, SimError>(SimError::Numeric));
                    }
                    return Err(SimError::Numeric);
                }
                v = v + 1;
            }
            proof {
                assert(all_wf(sv));
                lemma_init_fields(*self, source@, step_size@, nv);
                assert(all_force_carriers(sv));
                assert forall|q: int| 0 <= q < sv.len() implies exists|k: int|
                    0 <= k < w.len() && (#[trigger] sv[q]).receiver_id == (
                    #[trigger] w[k]).identifier by {
                    if sv[q].receiver_id == source@.identifier {
                        assert(sv[q].receiver_id == w[si as int].identifier);
                    } else {
                        let k2 = choose|k2: int|
                            0 <= k2 < nv.len() && sv[q].receiver_id == nv[k2].identifier;
                        let idx = choose|idx: int| 0 <= idx < w.len() && neighbors@[k2]@ == w[idx];
                        assert(nv[k2] == neighbors@[k2]@);
                        assert(sv[q].receiver_id == w[idx].identifier);
                    }
                }
            }
            let resolved = match self.dfs(world, &mut influence_stack, step_size, DFS_BUDGET) {
                Ok(res) => res,
                Err(e) => {
                    proof {
                        assert(dfs_v(*self, w, sv, DFS_BUDGET as nat, Seq::<InfluenceV>::empty())
                            == Err::<Seq<InfluenceV>, SimError>(e));
                        assert(resolve_sources_v(
                            *self,
                            w,
                            step_size@,
                            si as int,
                            influence_views(influences@),
                        ) == Err::<Seq<InfluenceV>, SimError>(e));
                    }
                    return Err(e);
                },
            };
            let ghost rv = influence_views(resolved@);
            let ghost acc = influence_views(influences@);
            proof {
                // one source resolved: step the computation forward
                assert(dfs_v(*self, w, sv, DFS_BUDGET as nat, Seq::<InfluenceV>::empty())
                    == Ok::<Seq<InfluenceV>, SimError>(rv));
                assert(resolve_sources_v(*self, w, step_size@, si as int, acc)
                    == resolve_sources_v(*self, w, step_size@, si as int + 1, acc + rv));
                // Each source's resolved influences sum to zero.
                lemma_init_conserves(*self, source@, step_size@, nv);
                assert forall|src: Seq<char>| vec_eqv(
                    #[trigger] source_forces_v(rv, src),
                    vec_zero(),
                ) by {
                    if *self is Gravity {
                        assert(rv =~= Seq::<InfluenceV>::empty());
                        lemma_vec_eqv_refl(vec_zero());
                    } else {
                        lemma_source_forces_same(sv, source@.identifier);
                        lemma_source_forces_valid(sv, src);
                        if src == source@.identifier {
                            assert(source_forces_v(sv, src) == forces_total_v(sv));
                            assert(vec_eqv(source_forces_v(sv, src), vec_zero()));
                        } else {
                            assert(source_forces_v(sv, src) == vec_zero());
                            lemma_vec_eqv_refl(vec_zero());
                        }
                        lemma_vec_eqv_trans(
                            source_forces_v(rv, src),
                            source_forces_v(sv, src),
                            vec_zero(),
                        );
                    }
                }
            }
            let mut resolved_vec = resolved;
            influences.append(&mut resolved_vec);
            proof {
                let acc2 = influence_views(influences@);
                assert(acc2 =~= acc + rv);
                assert forall|q: int| 0 <= q < acc2.len() implies influence_wf(
                    #[trigger] acc2[q],
                ) && acc2[q].state_change == force_change_v(acc2[q].state_change.net_force)
                    && influence_resolved(acc2[q]) by {
                    if q < acc.len() {
                        assert(acc2[q] == acc[q]);
                    } else {
                        assert(acc2[q] == rv[q - acc.len()]);
                    }
                }
                assert forall|src: Seq<char>| vec_eqv(
                    #[trigger] source_forces_v(acc2, src),
                    vec_zero(),
                ) by {
                    lemma_source_forces_concat(acc, rv, src);
                    lemma_source_forces_valid(acc, src);
                    lemma_source_forces_valid(rv, src);
                    lemma_vec_radd_congruence(
                        source_forces_v(acc, src),
                        vec_zero(),
                        source_forces_v(rv, src),
                        vec_zero(),
                    );
                    assert(vec_radd(vec_zero(), vec_zero()) == vec_zero()) by {
                        lemma_vec_radd_zero(vec_zero());
                    }
                    lemma_vec_radd_valid(source_forces_v(acc, src), source_forces_v(rv, src));
                    lemma_vec_eqv_trans(
                        source_forces_v(acc2, src),
                        vec_radd(source_forces_v(acc, src), source_forces_v(rv, src)),
                        vec_zero(),
                    );
                }
            }
            si = si + 1;
        }
        proof {
            assert(resolve_sources_v(
                *self,
                w,
                step_size@,
                n as int,
                influence_views(influences@),
            ) == Ok::<Seq<InfluenceV>, SimError>(influence_views(influences@)));
        }
        Ok(influences)
    }
}

} // verus!

