//! Binds a combination of held game-controller inputs to a rapid, cyclic
//! stream of single-button presses on a virtual controller.
//!
//! The modules, leaves first:
//! - `identity`: the canonical input identities and the host mapping tables;
//! - `tracker`: which inputs each physical device holds down;
//! - `trigger_set`: the taught combination of inputs;
//! - `protocol`: the teaching state machine and the activation flag;
//! - `engine`: the mashing cycle and the frames it emits.
pub mod identity;
pub mod tracker;
pub mod trigger_set;
pub mod protocol;
pub mod engine;
