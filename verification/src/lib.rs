//! Discrete grid-based dynamical systems on toroidal lattices.
//!
//! The crate provides a family of cellular-automaton engines that share one
//! lattice representation: a binary totalistic / outer-totalistic engine, the
//! Rule-110 elementary automaton, an Abelian sandpile, and two Margolus
//! block automata (the Critters rule and the single-rotation rule).  Each
//! engine advances its lattice one generation per `update` call and projects
//! the lattice into a caller-supplied pixel buffer.

pub mod automata_trait;
pub mod cell;
pub mod critters;
pub mod elementary;
pub mod error;
pub mod lattice;
pub mod margolus;
pub mod randomizer;
pub mod raster;
pub mod sandpiles;
pub mod single_rotation;
pub mod totalistic;
