//! A verified simulator of rigid spherical bodies interacting through
//! contact forces and elastic collisions.
//!
//! Physical quantities are exact rationals (see [`rational`]), so the
//! propagation of influences between touching bodies can be specified and
//! proved exactly: every influence a body distributes to its neighbours is
//! withdrawn from the body itself, and the finalized influences of each
//! causal chain sum to zero.

pub mod contact_forces;
pub mod distribution;
pub mod elastic_collision;
pub mod entity;
pub mod geometry;
pub mod gravity;
pub mod ident;
pub mod propagation;
pub mod rational;
pub mod round;
pub mod shape;
pub mod sqrt;
pub mod state;
pub mod state_influence;
pub mod system;
pub mod vector;

pub use rational::Rat;
pub use vector::Vec3;
