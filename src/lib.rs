//! Core of a two-dimensional gravitational N-body toy.
//!
//! The library owns the set of bodies and everything about it that is exact:
//! the order of one simulation step, dense indices, the pairing of colliding
//! bodies and the merge bookkeeping, the focused body and how it survives
//! structural change, trail ageing and the save/load round trip.  The
//! floating-point physics of each body travels in a payload of the caller's
//! choice, handed in and out through closures.
pub mod body;
pub mod collision;
pub mod focus;
pub mod persist;
pub mod trail;
pub mod widgets;
pub mod world;
