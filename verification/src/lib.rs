//! Core of three frame-stepped 2-D simulations over integer coordinates:
//! a flocking simulation backed by a quadtree spatial index, a toroidal
//! Game-of-Life grid automaton, and a falling-sand tile simulation with
//! swap-based physics.

pub mod encoders;
pub mod falling_sand;
pub mod flock;
pub mod gol;
pub mod quadtree;
pub mod rng;
pub mod vec2;
