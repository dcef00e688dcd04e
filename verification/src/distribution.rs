//! The shared force-distribution scan: how one body splits a force among
//! the neighbours it pushes, and what the resulting influence lists sum to.

use vstd::prelude::*;
use crate::entity::EntityV;
use crate::geometry::{applies_force_in_direction_v, force_in_direction_v};
use crate::rational::{rat_fits, rat_poison};
use crate::state::StateV;
use crate::state_influence::{InfluenceV, force_change_v, influence_wf};
use crate::vector::{
    VecV, Vec3, vec_add_v, vec_eqv, vec_is_zero, vec_neg_v, vec_radd, vec_rneg, vec_sub_v,
    vec_valid, vec_zero, lemma_vec_add_value, lemma_vec_eqv_trans, lemma_vec_radd_congruence,
    lemma_vec_radd_valid, lemma_vec_radd_assoc, lemma_vec_radd_zero, lemma_vec_radd_comm,
    lemma_vec_radd_neg, lemma_vec_sub_value, lemma_vec_diff_zero_eqv, lemma_vec_eqv_zero_flip,
};

verus! {

/// Every influence in the list carries a real (non-poisoned) force.
pub open spec fn all_wf(infs: Seq<InfluenceV>) -> bool {
    forall|i: int| 0 <= i < infs.len() ==> influence_wf(#[trigger] infs[i])
}

/// The mathematical sum of the force vectors of a list of influences.
pub open spec fn forces_total_v(infs: Seq<InfluenceV>) -> VecV
    decreases infs.len(),
{
    if infs.len() == 0 {
        vec_zero()
    } else {
        vec_radd(forces_total_v(infs.drop_last()), infs.last().state_change.net_force)
    }
}

/// The mathematical sum of the forces of the influences whose causal chain
/// originated at `src`.
pub open spec fn source_forces_v(infs: Seq<InfluenceV>, src: Seq<char>) -> VecV
    decreases infs.len(),
{
    if infs.len() == 0 {
        vec_zero()
    } else {
        let rest = source_forces_v(infs.drop_last(), src);
        if infs.last().source_id == src {
            vec_radd(rest, infs.last().state_change.net_force)
        } else {
            rest
        }
    }
}

/// A computed quantity is kept when it is not exactly zero.  This stands
/// in for the noise threshold `magnitude * 10^11 > 1 unit`, and the two
/// agree whenever the squared norm of the vector stays representable: a
/// valid squared norm has a denominator of at most `i64::MAX < 10^22`, so
/// a nonzero one already exceeds one part in `10^22` (the square of the
/// `10^11` precision factor).  They deliberately differ on vectors whose
/// squared norm leaves the representable range: a quantity smaller than
/// one part in `10^11` whose square cannot be represented is kept here,
/// where the scaled-magnitude comparison would drop it.  Deciding that
/// comparison exactly would need integer arithmetic far beyond 128 bits.
pub open spec fn keep_v(v: VecV) -> bool {
    !vec_is_zero(v)
}

/// Every influence in the list is a pure force carrier: its state change
/// holds a net force and nothing else.
pub open spec fn all_force_carriers(infs: Seq<InfluenceV>) -> bool {
    forall|j: int|
        0 <= j < infs.len() ==> (#[trigger] infs[j]).state_change == force_change_v(
            infs[j].state_change.net_force,
        )
}

pub fn keep(v: &Vec3) -> (b: bool)
    ensures
        b == keep_v(v@),
{
    !v.is_zero()
}

/// Each component of a computed vector either fits the representation or
/// is the overflow poison.
pub open spec fn vec_boxed(v: VecV) -> bool {
    &&& rat_fits(v.x) || v.x == rat_poison()
    &&& rat_fits(v.y) || v.y == rat_poison()
    &&& rat_fits(v.z) || v.z == rat_poison()
}

/// The scan that `init` and `react` share: walk the neighbours in order;
/// each neighbour that the probe state pushes (and whose computed force is
/// kept) receives one influence, and the kept forces are accumulated.
/// Returns the influence list and the accumulated total.
pub open spec fn force_scan_v(
    probe: StateV,
    src_id: Seq<char>,
    trans_id: Seq<char>,
    inter_id: Seq<char>,
    neighbors: Seq<EntityV>,
) -> (Seq<InfluenceV>, VecV)
    decreases neighbors.len(),
{
    if neighbors.len() == 0 {
        (Seq::<InfluenceV>::empty(), vec_zero())
    } else {
        let (infs, forces) = force_scan_v(probe, src_id, trans_id, inter_id, neighbors.drop_last());
        let nb = neighbors.last();
        if applies_force_in_direction_v(probe, nb.state) {
            let force = force_in_direction_v(probe, nb.state);
            if keep_v(force) {
                (
                    infs.push(
                        InfluenceV {
                            source_id: src_id,
                            transmitter_id: trans_id,
                            receiver_id: nb.identifier,
                            interaction_id: inter_id,
                            state_change: force_change_v(force),
                        },
                    ),
                    vec_add_v(forces, force),
                )
            } else {
                (infs, forces)
            }
        } else {
            (infs, forces)
        }
    }
}

/// Structural facts about the scan: who the influences name, and that the
/// accumulated total is exactly the sum of the distributed forces
/// (whenever nothing overflowed).
pub proof fn lemma_force_scan(
    probe: StateV,
    src_id: Seq<char>,
    trans_id: Seq<char>,
    inter_id: Seq<char>,
    neighbors: Seq<EntityV>,
)
    ensures
        ({
            let (infs, forces) = force_scan_v(probe, src_id, trans_id, inter_id, neighbors);
            &&& vec_boxed(forces)
            &&& forall|j: int|
                0 <= j < infs.len() ==> {
                    &&& (#[trigger] infs[j]).source_id == src_id
                    &&& infs[j].transmitter_id == trans_id
                    &&& infs[j].interaction_id == inter_id
                    &&& infs[j].state_change == force_change_v(infs[j].state_change.net_force)
                    &&& exists|k: int|
                        0 <= k < neighbors.len() && infs[j].receiver_id == (
                        #[trigger] neighbors[k]).identifier
                }
            &&& (all_wf(infs) && vec_valid(forces)) ==> vec_eqv(forces_total_v(infs), forces)
        }),
    decreases neighbors.len(),
{
    let (infs, forces) = force_scan_v(probe, src_id, trans_id, inter_id, neighbors);
    if neighbors.len() == 0 {
    } else {
        lemma_force_scan(probe, src_id, trans_id, inter_id, neighbors.drop_last());
        let (infs0, forces0) = force_scan_v(
            probe,
            src_id,
            trans_id,
            inter_id,
            neighbors.drop_last(),
        );
        let nb = neighbors.last();
        assert(forall|k: int|
            0 <= k < neighbors.len() - 1 ==> neighbors.drop_last()[k] == (
            #[trigger] neighbors[k]));
        if applies_force_in_direction_v(probe, nb.state) && keep_v(
            force_in_direction_v(probe, nb.state),
        ) {
            let force = force_in_direction_v(probe, nb.state);
            assert(infs.drop_last() =~= infs0);
            if all_wf(infs) && vec_valid(forces) {
                // The final addition did not overflow, so the previous
                // total was valid too and everything is value-exact.
                assert(vec_valid(forces0));
                assert(all_wf(infs0));
                assert(vec_eqv(forces_total_v(infs0), forces0));
                lemma_vec_add_value(forces0, force);
                lemma_vec_radd_congruence(forces_total_v(infs0), forces0, force, force);
                assert(forces_total_v(infs) == vec_radd(forces_total_v(infs0), force));
                lemma_vec_radd_valid(forces0, force);
                lemma_vec_eqv_trans(
                    forces_total_v(infs),
                    vec_radd(forces0, force),
                    forces,
                );
            }
        }
    }
}

/// When every influence in a list names the same source, the per-source
/// sum for that source is the full sum, and it is zero for every other
/// source.
pub proof fn lemma_source_forces_same(infs: Seq<InfluenceV>, src: Seq<char>)
    requires
        forall|j: int| 0 <= j < infs.len() ==> (#[trigger] infs[j]).source_id == src,
    ensures
        source_forces_v(infs, src) == forces_total_v(infs),
        forall|other: Seq<char>|
            other != src ==> #[trigger] source_forces_v(infs, other) == vec_zero(),
    decreases infs.len(),
{
    if infs.len() > 0 {
        lemma_source_forces_same(infs.drop_last(), src);
        assert(infs[infs.len() - 1].source_id == src);
        assert forall|other: Seq<char>| other != src implies #[trigger] source_forces_v(
            infs,
            other,
        ) == vec_zero() by {
            assert(source_forces_v(infs.drop_last(), other) == vec_zero());
        }
    }
}

/// Per-source sums are valid vectors whenever every force is valid.
pub proof fn lemma_source_forces_valid(infs: Seq<InfluenceV>, src: Seq<char>)
    requires
        all_wf(infs),
    ensures
        vec_valid(source_forces_v(infs, src)),
    decreases infs.len(),
{
    if infs.len() > 0 {
        lemma_source_forces_valid(infs.drop_last(), src);
        if infs.last().source_id == src {
            lemma_vec_radd_valid(
                source_forces_v(infs.drop_last(), src),
                infs.last().state_change.net_force,
            );
        }
    }
}

/// Splitting a concatenation: the per-source sum of `s + t` has the value
/// of the sum of the per-source sums.
pub proof fn lemma_source_forces_concat(s: Seq<InfluenceV>, t: Seq<InfluenceV>, src: Seq<char>)
    requires
        all_wf(s),
        all_wf(t),
    ensures
        vec_eqv(
            source_forces_v(s + t, src),
            vec_radd(source_forces_v(s, src), source_forces_v(t, src)),
        ),
    decreases t.len(),
{
    lemma_source_forces_valid(s, src);
    lemma_source_forces_valid(t, src);
    lemma_source_forces_valid(s + t, src);
    if t.len() == 0 {
        assert(s + t =~= s);
        lemma_vec_radd_zero(source_forces_v(s, src));
        lemma_vec_eqv_refl(source_forces_v(s, src));
    } else {
        let t0 = t.drop_last();
        assert(all_wf(t0));
        lemma_source_forces_concat(s, t0, src);
        assert((s + t).drop_last() =~= s + t0);
        assert((s + t).last() == t.last());
        lemma_source_forces_valid(s + t0, src);
        lemma_source_forces_valid(t0, src);
        if t.last().source_id == src {
            let f = t.last().state_change.net_force;
            // source_forces_v(s + t) == radd(source_forces_v(s + t0), f)
            lemma_vec_radd_congruence(
                source_forces_v(s + t0, src),
                vec_radd(source_forces_v(s, src), source_forces_v(t0, src)),
                f,
                f,
            );
            lemma_vec_radd_assoc(source_forces_v(s, src), source_forces_v(t0, src), f);
            lemma_vec_radd_valid(source_forces_v(s, src), source_forces_v(t0, src));
            lemma_vec_radd_valid(
                vec_radd(source_forces_v(s, src), source_forces_v(t0, src)),
                f,
            );
            lemma_vec_eqv_refl(
                vec_radd(vec_radd(source_forces_v(s, src), source_forces_v(t0, src)), f),
            );
            lemma_vec_eqv_trans(
                source_forces_v(s + t, src),
                vec_radd(vec_radd(source_forces_v(s, src), source_forces_v(t0, src)), f),
                vec_radd(source_forces_v(s, src), vec_radd(source_forces_v(t0, src), f)),
            );
        }
    }
}

/// Value equality of vectors is reflexive.
pub proof fn lemma_vec_eqv_refl(a: VecV)
    ensures
        vec_eqv(a, a),
{
}

/// Close a seed list: withdraw the distributed total from the source
/// itself as one self-influence (dropped when negligible).
pub open spec fn seeds_out_v(
    infs: Seq<InfluenceV>,
    forces: VecV,
    src_id: Seq<char>,
    inter_id: Seq<char>,
) -> Seq<InfluenceV> {
    if keep_v(forces) {
        infs.push(
            InfluenceV {
                source_id: src_id,
                transmitter_id: src_id,
                receiver_id: src_id,
                interaction_id: inter_id,
                state_change: force_change_v(vec_neg_v(forces)),
            },
        )
    } else {
        infs
    }
}

/// Close a reaction list: keep the undistributed remainder of the inbound
/// force for the reactor itself (dropped when negligible).
pub open spec fn react_out_v(
    infs: Seq<InfluenceV>,
    forces: VecV,
    inb: VecV,
    src_id: Seq<char>,
    reactor_id: Seq<char>,
    inter_id: Seq<char>,
) -> Seq<InfluenceV> {
    let reactor_force = vec_sub_v(inb, forces);
    if keep_v(reactor_force) {
        infs.push(
            InfluenceV {
                source_id: src_id,
                transmitter_id: reactor_id,
                receiver_id: reactor_id,
                interaction_id: inter_id,
                state_change: force_change_v(reactor_force),
            },
        )
    } else {
        infs
    }
}

/// Newton's third law at the seed: if the distributed influences sum to
/// the accumulated total, the closed seed list sums to exactly zero
/// (whenever nothing overflowed).
pub proof fn lemma_seeds_out_conserves(
    infs: Seq<InfluenceV>,
    forces: VecV,
    src_id: Seq<char>,
    inter_id: Seq<char>,
)
    requires
        all_wf(infs) && vec_valid(forces) ==> vec_eqv(forces_total_v(infs), forces),
    ensures
        all_wf(seeds_out_v(infs, forces, src_id, inter_id)) ==> vec_eqv(
            forces_total_v(seeds_out_v(infs, forces, src_id, inter_id)),
            vec_zero(),
        ),
{
    let out = seeds_out_v(infs, forces, src_id, inter_id);
    if all_wf(out) {
        if keep_v(forces) {
            assert(out.drop_last() =~= infs);
            assert(influence_wf(out.last()));
            assert(vec_valid(vec_neg_v(forces)));
            assert(vec_valid(forces));
            assert(forall|j: int| 0 <= j < infs.len() ==> infs[j] == #[trigger] out[j]);
            assert(all_wf(infs));
            assert(vec_eqv(forces_total_v(infs), forces));
            assert(vec_neg_v(forces) == vec_rneg(forces));
            lemma_vec_radd_congruence(
                forces_total_v(infs),
                forces,
                vec_rneg(forces),
                vec_rneg(forces),
            );
            lemma_vec_radd_neg(forces);
            lemma_vec_radd_valid(forces, vec_rneg(forces));
            lemma_vec_eqv_trans(
                forces_total_v(out),
                vec_radd(forces, vec_rneg(forces)),
                vec_zero(),
            );
        } else {
            assert(out == infs);
            assert(vec_eqv(forces_total_v(infs), forces));
            assert(vec_eqv(forces, vec_zero()));
            lemma_vec_eqv_trans(forces_total_v(out), forces, vec_zero());
        }
    }
}

/// Conservation at a reaction: if the forwarded influences sum to the
/// accumulated total, the closed reaction list sums to exactly the inbound
/// force (whenever nothing overflowed) — redistribution neither creates
/// nor loses force.
pub proof fn lemma_react_out_conserves(
    infs: Seq<InfluenceV>,
    forces: VecV,
    inb: VecV,
    src_id: Seq<char>,
    reactor_id: Seq<char>,
    inter_id: Seq<char>,
)
    requires
        all_wf(infs) && vec_valid(forces) ==> vec_eqv(forces_total_v(infs), forces),
    ensures
        all_wf(react_out_v(infs, forces, inb, src_id, reactor_id, inter_id)) ==> vec_eqv(
            forces_total_v(react_out_v(infs, forces, inb, src_id, reactor_id, inter_id)),
            inb,
        ),
{
    let rf = vec_sub_v(inb, forces);
    let out = react_out_v(infs, forces, inb, src_id, reactor_id, inter_id);
    if all_wf(out) {
        lemma_vec_sub_value(inb, forces);
        if keep_v(rf) {
            assert(out.drop_last() =~= infs);
            assert(influence_wf(out.last()));
            assert(vec_valid(rf));
            assert(vec_valid(forces) && vec_valid(inb));
            assert(forall|j: int| 0 <= j < infs.len() ==> infs[j] == #[trigger] out[j]);
            assert(all_wf(infs));
            assert(vec_eqv(forces_total_v(infs), forces));
            assert(vec_eqv(rf, vec_radd(inb, vec_rneg(forces))));
            lemma_vec_radd_congruence(
                forces_total_v(infs),
                forces,
                rf,
                vec_radd(inb, vec_rneg(forces)),
            );
            lemma_vec_radd_comm(inb, vec_rneg(forces));
            lemma_vec_radd_assoc(forces, vec_rneg(forces), inb);
            lemma_vec_radd_neg(forces);
            lemma_vec_radd_congruence(
                vec_radd(forces, vec_rneg(forces)),
                vec_zero(),
                inb,
                inb,
            );
            lemma_vec_radd_zero(inb);
            lemma_vec_radd_valid(inb, vec_rneg(forces));
            lemma_vec_radd_valid(forces, vec_radd(inb, vec_rneg(forces)));
            lemma_vec_eqv_trans(
                forces_total_v(out),
                vec_radd(forces, vec_radd(inb, vec_rneg(forces))),
                vec_radd(vec_radd(forces, vec_rneg(forces)), inb),
            );
            lemma_vec_radd_valid(vec_radd(forces, vec_rneg(forces)), inb);
            lemma_vec_eqv_trans(
                forces_total_v(out),
                vec_radd(vec_radd(forces, vec_rneg(forces)), inb),
                vec_radd(vec_zero(), inb),
            );
        } else {
            assert(out == infs);
            assert(vec_valid(rf) && rf.x.n == 0 && rf.y.n == 0 && rf.z.n == 0);
            assert(vec_valid(forces) && vec_valid(inb));
            assert(vec_eqv(forces_total_v(infs), forces));
            assert(vec_eqv(rf, vec_radd(inb, vec_rneg(forces))));
            lemma_vec_eqv_zero_flip(rf, vec_radd(inb, vec_rneg(forces)));
            lemma_vec_diff_zero_eqv(inb, forces);
            lemma_vec_eqv_trans(forces_total_v(out), forces, inb);
        }
    }
}

} // verus!
