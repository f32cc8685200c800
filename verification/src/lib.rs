//! Procedural secondary motion for a chain of trailing joints: a tail that
//! follows an animated character.
//!
//! Each frame the chain's points are moved on by their implicit velocity
//! ([`integrator`]), pulled back to their rest lengths behind the pinned
//! anchor ([`solver`]) and turned into local joint transforms ([`pose`]);
//! [`tail`] runs the three in order on the persistent point buffer of
//! [`state`]. [`binding`] finds the chain's joints in a skeleton once, at
//! setup, and [`orientation`] turns the body toward its direction of travel.
//!
//! The solver is generic in its numbers. Positions, rotations, lengths and
//! transforms are values of the caller's types, and every piece of arithmetic
//! on them is a kernel that the caller hands in. What is fixed, and proved,
//! here is the structure: which kernel is applied to which values, in which
//! order, and what is left untouched. Contracts state results through the
//! kernels' own postconditions (`call_ensures`).
//!
//! [`shuffle`] is a small companion: it draws items in random order without
//! repeating one before all have come.

pub mod binding;
pub mod integrator;
pub mod orientation;
pub mod pose;
pub mod shuffle;
pub mod solver;
pub mod state;
pub mod tail;
