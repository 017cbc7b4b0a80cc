//! A small Whitted-style ray tracer with a verified core, together with the
//! cellular-automaton boards and helpers that share this crate.
//!
//! Geometry is carried out in Q16.16 fixed-point arithmetic: a scalar is an
//! `i64` holding `65536` times its value. Every arithmetic step is stated
//! exactly, so the contracts of the tracer pin the produced image down to the
//! last bit.

pub mod color;
pub mod fixed;
pub mod game;
pub mod gamma;
pub mod gui;
pub mod life;
pub mod ndgame;
pub mod optimizer;
pub mod pattern_finder;
pub mod render;
pub mod rng;
pub mod shade;
pub mod tracer;
pub mod vec3;
