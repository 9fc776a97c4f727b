//! Core simulation of a small top-down arcade game: a truck collects
//! garbage cans scattered over an infinitely wrapping 3x3 background ring.
//!
//! The world is modelled on exact integer coordinates: positions are plain
//! world units, headings and direction vectors are fixed-point. A thin
//! driver supplies input, time steps and the trigonometric projection of
//! the heading; everything the simulation decides is verified here.

pub mod environment;
pub mod game;
mod random;
pub mod truck;
pub mod ui;
