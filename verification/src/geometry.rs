//! Geometric and directional predicates between two spherical bodies.
//!
//! Directions enter every formula only through expressions of the form
//! `normal * (w . normal)` or through signs of projections, where
//! `normal = diff / |diff|`.  Both reduce to rational expressions in the
//! squared distance, so no square root is ever needed:
//! `normal * (w . normal) == diff * (w . diff) / |diff|^2`, and the sign
//! of `w . normal` is the sign of `w . diff`.

use vstd::prelude::*;
use crate::entity::Entity;
use crate::rational::{
    Rat, RatV, rat_add_v, rat_div_v, rat_le_v, rat_lt_v, rat_mul_v, rat_new_v, rat_poison,
    rat_zero, lemma_add_v_comm, lemma_mul_self_neg, lemma_sub_v_antisym,
};
use crate::sqrt::{rat_sqrt, rat_sqrt_v};
use crate::shape::{shape_is_sphere, shape_radius};
use crate::state::StateV;
use crate::vector::{
    Vec3, VecV, vec_dot_v, vec_neg_v, vec_norm2_v, vec_scale_v, vec_sub_v, vec_zero,
};

verus! {

/// Squared distance between the locations of two states.
pub open spec fn dist2_v(a: StateV, b: StateV) -> RatV {
    vec_norm2_v(vec_sub_v(a.location, b.location))
}

/// The two spheres touch: the distance between the centres is at most the
/// sum of the radii (compared in squares).
pub open spec fn touching_v(a: StateV, b: StateV) -> bool {
    let rsum = rat_add_v(shape_radius(a.shape), shape_radius(b.shape));
    rat_le_v(dist2_v(a, b), rat_mul_v(rsum, rsum))
}

/// The projection of `from`'s net force onto the direction toward `to`,
/// scaled by the distance: `net_force . (to.location - from.location)`.
/// Its sign is the sign of the force component toward `to`.
pub open spec fn force_toward_v(from: StateV, to: StateV) -> RatV {
    vec_dot_v(from.net_force, vec_sub_v(to.location, from.location))
}

/// `(to.velocity - from.velocity) . (to.location - from.location)`:
/// negative exactly when the separation distance is decreasing.
pub open spec fn relative_velocity_v(from: StateV, to: StateV) -> RatV {
    vec_dot_v(vec_sub_v(to.velocity, from.velocity), vec_sub_v(to.location, from.location))
}

pub open spec fn relatively_moves_towards_v(from: StateV, to: StateV) -> bool {
    rat_lt_v(relative_velocity_v(from, to), rat_zero())
}

/// `from` pushes toward `to` and the pair is not separating.
pub open spec fn applies_force_in_direction_v(from: StateV, to: StateV) -> bool {
    rat_lt_v(rat_zero(), force_toward_v(from, to)) && rat_le_v(
        relative_velocity_v(from, to),
        rat_zero(),
    )
}

/// The force `from` exerts toward `to`:
/// `diff * (net_force . diff) / |diff|^2`, which equals
/// `normal * (net_force . normal)`; zero unless the force applies and the
/// pair is touching.
pub open spec fn force_in_direction_v(from: StateV, to: StateV) -> VecV {
    if !applies_force_in_direction_v(from, to) {
        vec_zero()
    } else if !touching_v(from, to) {
        vec_zero()
    } else {
        let diff = vec_sub_v(to.location, from.location);
        vec_scale_v(diff, rat_div_v(vec_dot_v(from.net_force, diff), vec_norm2_v(diff)))
    }
}

/// The velocity component of `from` toward `to` is positive (the sign of
/// `velocity . diff`) and the separation distance is decreasing.
pub open spec fn moves_towards_v(from: StateV, to: StateV) -> bool {
    rat_lt_v(rat_zero(), vec_dot_v(from.velocity, vec_sub_v(to.location, from.location)))
        && relatively_moves_towards_v(from, to)
}

/// The change of `to`'s velocity in a perfectly elastic collision with
/// `from` (restitution one, reduced mass `1/(1/m_to + 1/m_from)`):
/// `-diff * (2 * mu * (v_rel . diff)) / (|diff|^2 * m_to)`, which equals
/// `-normal * impulse / m_to`; zero unless the bodies approach and touch.
pub open spec fn velocity_diff_after_collision_v(from: StateV, to: StateV) -> VecV {
    if !relatively_moves_towards_v(from, to) {
        vec_zero()
    } else if !touching_v(from, to) {
        vec_zero()
    } else {
        let one = RatV { n: 1, d: 1 };
        let diff = vec_sub_v(to.location, from.location);
        let mu = rat_div_v(one, rat_add_v(rat_div_v(one, to.mass), rat_div_v(one, from.mass)));
        let impact2 = vec_dot_v(vec_sub_v(to.velocity, from.velocity), diff);
        let impulse2 = rat_mul_v(rat_mul_v(rat_add_v(one, one), mu), impact2);
        vec_scale_v(vec_neg_v(diff), rat_div_v(impulse2, rat_mul_v(to.mass, vec_norm2_v(diff))))
    }
}

/// The touching predicate is symmetric: for every pair of states,
/// `touching(a, b)` and `touching(b, a)` coincide, and both compare the
/// squared centre distance against the squared radius sum.
pub proof fn lemma_touching_symmetric(a: StateV, b: StateV)
    ensures
        touching_v(a, b) == touching_v(b, a),
{
    let dab = vec_sub_v(a.location, b.location);
    let dba = vec_sub_v(b.location, a.location);
    lemma_sub_v_antisym(a.location.x, b.location.x);
    lemma_sub_v_antisym(a.location.y, b.location.y);
    lemma_sub_v_antisym(a.location.z, b.location.z);
    if dab.x == rat_poison() {
        assert(rat_mul_v(dba.x, dba.x) == rat_mul_v(dab.x, dab.x));
    } else {
        lemma_mul_self_neg(dab.x);
    }
    if dab.y == rat_poison() {
        assert(rat_mul_v(dba.y, dba.y) == rat_mul_v(dab.y, dab.y));
    } else {
        lemma_mul_self_neg(dab.y);
    }
    if dab.z == rat_poison() {
        assert(rat_mul_v(dba.z, dba.z) == rat_mul_v(dab.z, dab.z));
    } else {
        lemma_mul_self_neg(dab.z);
    }
    assert(vec_norm2_v(dba) == vec_norm2_v(dab));
    lemma_add_v_comm(shape_radius(a.shape), shape_radius(b.shape));
}

/// A body moves toward another exactly when the component of its velocity
/// in the direction of the other is positive (the sign of
/// `velocity . diff`, which is the sign of the projection onto the unit
/// normal) and the separation distance is instantaneously decreasing.
pub proof fn lemma_moves_towards_characterized(from: StateV, to: StateV)
    ensures
        moves_towards_v(from, to) == (rat_lt_v(
            rat_zero(),
            vec_dot_v(from.velocity, vec_sub_v(to.location, from.location)),
        ) && relatively_moves_towards_v(from, to)),
        relatively_moves_towards_v(from, to) == rat_lt_v(
            vec_dot_v(
                vec_sub_v(to.velocity, from.velocity),
                vec_sub_v(to.location, from.location),
            ),
            rat_zero(),
        ),
{
}

/// The elastic-collision velocity change is exactly the zero vector
/// unless the two bodies are touching and approaching; when they are, it
/// is the restitution-one closed form
/// `-diff * (2 * mu * (v_rel . diff)) / (|diff|^2 * m_to)`.
pub proof fn lemma_velocity_diff_characterized(from: StateV, to: StateV)
    ensures
        !(relatively_moves_towards_v(from, to) && touching_v(from, to))
            ==> velocity_diff_after_collision_v(from, to) == vec_zero(),
        (relatively_moves_towards_v(from, to) && touching_v(from, to)) ==> {
            let one = RatV { n: 1, d: 1 };
            let diff = vec_sub_v(to.location, from.location);
            let mu = rat_div_v(
                one,
                rat_add_v(rat_div_v(one, to.mass), rat_div_v(one, from.mass)),
            );
            let impact2 = vec_dot_v(vec_sub_v(to.velocity, from.velocity), diff);
            let impulse2 = rat_mul_v(rat_mul_v(rat_add_v(one, one), mu), impact2);
            velocity_diff_after_collision_v(from, to) == vec_scale_v(
                vec_neg_v(diff),
                rat_div_v(impulse2, rat_mul_v(to.mass, vec_norm2_v(diff))),
            )
        },
{
}

/// Both spheres are touching; symmetric in its two arguments.
pub fn are_touching(entity0: &Entity, entity1: &Entity) -> (r: bool)
    requires
        shape_is_sphere(entity0@.state.shape),
        shape_is_sphere(entity1@.state.shape),
    ensures
        r == touching_v(entity0@.state, entity1@.state),
{
    let s0 = entity0.get_state();
    let s1 = entity1.get_state();
    let diff = s0.get_location().sub(&s1.get_location());
    let dist2 = diff.norm2();
    let rsum = s0.get_shape().radius().add(&s1.get_shape().radius());
    dist2.le(&rsum.mul(&rsum))
}

fn relative_velocity(from_entity: &Entity, to_entity: &Entity) -> (r: Rat)
    ensures
        r@ == relative_velocity_v(from_entity@.state, to_entity@.state),
{
    let from = from_entity.get_state();
    let to = to_entity.get_state();
    let rel_velocity = to.get_velocity().sub(&from.get_velocity());
    let rel_location = to.get_location().sub(&from.get_location());
    rel_velocity.dot(&rel_location)
}

/// The force of `from` has a positive component toward `to` and the pair
/// is not separating.
pub fn applies_force_in_direction(from_entity: &Entity, to_entity: &Entity) -> (r: bool)
    ensures
        r == applies_force_in_direction_v(from_entity@.state, to_entity@.state),
{
    let from = from_entity.get_state();
    let to = to_entity.get_state();
    let diff = to.get_location().sub(&from.get_location());
    let toward = from.get_net_force().dot(&diff);
    let zero = Rat::from_int(0);
    zero.lt(&toward) && relative_velocity(from_entity, to_entity).le(&zero)
}

/// The force `from` exerts toward `to`; see [`force_in_direction_v`].
pub fn get_force_in_direction(from_entity: &Entity, to_entity: &Entity) -> (r: Vec3)
    requires
        shape_is_sphere(from_entity@.state.shape),
        shape_is_sphere(to_entity@.state.shape),
    ensures
        r@ == force_in_direction_v(from_entity@.state, to_entity@.state),
{
    if !applies_force_in_direction(from_entity, to_entity) {
        Vec3::zero()
    } else if !are_touching(from_entity, to_entity) {
        Vec3::zero()
    } else {
        let from = from_entity.get_state();
        let to = to_entity.get_state();
        let diff = to.get_location().sub(&from.get_location());
        let toward = from.get_net_force().dot(&diff);
        diff.scale(&toward.div(&diff.norm2()))
    }
}

/// The separation distance of the pair is instantaneously decreasing.
pub fn relatively_moves_towards(from_entity: &Entity, to_entity: &Entity) -> (r: bool)
    ensures
        r == relatively_moves_towards_v(from_entity@.state, to_entity@.state),
{
    relative_velocity(from_entity, to_entity).lt(&Rat::from_int(0))
}

/// `from` moves toward `to` and the distance between them is decreasing.
pub fn moves_towards(from_entity: &Entity, to_entity: &Entity) -> (r: bool)
    ensures
        r == moves_towards_v(from_entity@.state, to_entity@.state),
{
    let from = from_entity.get_state();
    let to = to_entity.get_state();
    let diff = to.get_location().sub(&from.get_location());
    let toward = from.get_velocity().dot(&diff);
    Rat::from_int(0).lt(&toward) && relatively_moves_towards(from_entity, to_entity)
}

/// The elastic-collision velocity change of `to`; see
/// [`velocity_diff_after_collision_v`].
pub fn get_velocity_diff_after_collision(from_entity: &Entity, to_entity: &Entity) -> (r: Vec3)
    requires
        shape_is_sphere(from_entity@.state.shape),
        shape_is_sphere(to_entity@.state.shape),
    ensures
        r@ == velocity_diff_after_collision_v(from_entity@.state, to_entity@.state),
{
    if !relatively_moves_towards(from_entity, to_entity) {
        Vec3::zero()
    } else if !are_touching(from_entity, to_entity) {
        Vec3::zero()
    } else {
        let from = from_entity.get_state();
        let to = to_entity.get_state();
        let one = Rat::from_int(1);
        let diff = to.get_location().sub(&from.get_location());
        let reduced_mass = one.div(&one.div(&to.get_mass()).add(&one.div(&from.get_mass())));
        let rel_velocity = to.get_velocity().sub(&from.get_velocity());
        let impact2 = rel_velocity.dot(&diff);
        let restitution = Rat::from_int(1);
        let impulse2 = one.add(&restitution).mul(&reduced_mass).mul(&impact2);
        diff.neg().scale(&impulse2.div(&to.get_mass().mul(&diff.norm2())))
    }
}

/// The gravitational pull `to` exerts on `from`, by the inverse-square
/// law: `rel * G * m_from * m_to / (|rel|^2 * |rel|)` with
/// `rel = from.location - to.location` and `G = 6.6743e-11` in SI units.
/// The length `|rel|` is the approximate square root of [`rat_sqrt_v`].
pub open spec fn gravity_pull_v(from: StateV, to: StateV) -> VecV {
    let g = rat_new_v(66743, 1000000000000000);
    let rel = vec_sub_v(from.location, to.location);
    let n2 = vec_norm2_v(rel);
    vec_scale_v(
        rel,
        rat_div_v(rat_mul_v(rat_mul_v(g, from.mass), to.mass), rat_mul_v(n2, rat_sqrt_v(n2))),
    )
}

/// The gravitational pull; see [`gravity_pull_v`].  Used by the energy
/// diagnostics only; gravity is inert in the propagation graph.
pub fn get_gravity_pull(from_entity: &Entity, to_entity: &Entity) -> (r: Vec3)
    ensures
        r@ == gravity_pull_v(from_entity@.state, to_entity@.state),
{
    let from = from_entity.get_state();
    let to = to_entity.get_state();
    let g = Rat::new(66743, 1000000000000000);
    let rel = from.get_location().sub(&to.get_location());
    let n2 = rel.norm2();
    let dist = rat_sqrt(&n2);
    rel.scale(&g.mul(&from.get_mass()).mul(&to.get_mass()).div(&n2.mul(&dist)))
}

/// The reaction force `to` receives from `from`: the negation of the force
/// `to` exerts toward `from`.
pub fn get_normal_force(from_entity: &Entity, to_entity: &Entity) -> (r: Vec3)
    requires
        shape_is_sphere(from_entity@.state.shape),
        shape_is_sphere(to_entity@.state.shape),
    ensures
        r@ == vec_neg_v(force_in_direction_v(to_entity@.state, from_entity@.state)),
{
    get_force_in_direction(to_entity, from_entity).neg()
}

} // verus!
