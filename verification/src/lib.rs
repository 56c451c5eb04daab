//! A toroidal cellular-automaton engine: a fixed-size grid of cells that
//! evolves under Conway's Game-of-Life rule (B3/S23), with a per-cell age
//! counter for presentation and a derived moving/stopped statistics summary.

pub mod grid;
pub mod image;
pub mod logic;
pub mod ui;
