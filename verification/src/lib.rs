//! A bounded 2D arcade simulation: a player-controlled sprite and a swarm of
//! autonomously moving enemies inside a rectangular window.
//!
//! All geometry is carried in fixed-point integers: positions and window
//! dimensions in micro-units (one game unit is `UNIT` micro-units), headings
//! as vectors of nominal length `DIR_SCALE`. Every frame step — player
//! control, boundary clamping, enemy motion, boundary reflection, and both
//! collision passes — is specified and verified over this integer model.

pub mod arith;
pub mod dir;
pub mod geom;
pub mod rng;
pub mod world;
