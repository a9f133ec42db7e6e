//! Lattice cryptography primitives: numeric kernels, random generators, entities and the
//! algorithms of the programmable bootstrap.
pub mod algorithms;
pub mod commons;
pub mod entities;
