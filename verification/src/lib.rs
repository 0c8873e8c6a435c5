//! Guidance-and-control core of a rocket flight computer.
//!
//! The crate synthesizes a feedback control law from a linear model of the
//! vehicle and applies it on every control tick:
//!
//! - [`riccati`] solves the continuous-time algebraic Riccati equation by
//!   the matrix-sign-function iteration;
//! - [`lqr`] turns the solution into an optimal gain and applies it, with
//!   an integral trim on one axis;
//! - [`pid`] is a discrete single-axis controller for simpler loops;
//! - [`control`] gives both laws one shape;
//! - [`math`] holds the integrators, and [`body`] the plant model that the
//!   laws are flown against;
//! - [`bridge`] holds the commands and messages that leave the core.
//!
//! All quantities are fixed-point numbers ([`fixed::Fixed`]) with saturating
//! arithmetic, so every control law, integrator and matrix routine
//! ([`vector`], [`matrix`], [`linalg`]) is an exact function of its inputs:
//! the contracts say which one, to the last digit. No function panics on an
//! input that its contract admits, and the solver and the control laws
//! admit every input.
pub mod body;
pub mod bridge;
pub mod control;
pub mod fixed;
pub mod linalg;
pub mod lqr;
pub mod math;
pub mod matrix;
pub mod pid;
pub mod riccati;
pub mod vector;
