//! A two-phase cellular automaton: a grid is filled row by row with Wolfram's
//! Rule 30 and then evolves as a toroidal Game of Life, perturbed by pulsars
//! stamped at random places. Every generation is drawn into a pixel buffer.

pub mod color;
pub mod conway;
pub mod framebuffer;
pub mod grid;
pub mod pattern;
pub mod random;
pub mod render;
pub mod rule30;
pub mod simulation;
