//! A 2-D "particle life" simulation core.
//!
//! A fixed population of colored point particles exerts pairwise forces on
//! one another according to a per-color-pair interaction rule, producing
//! emergent clustering over discrete time steps.  All kinematic quantities
//! are carried in signed fixed-point arithmetic (see [`fixed`]), so every
//! step of the force computation and of the integration is exact and fully
//! specified.

pub mod fixed;
pub mod laws;
pub mod particle;
pub mod rng;
pub mod system;
pub mod vec2;
