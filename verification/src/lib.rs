//! A frame-driven engine that animates a breadth-first traversal of a
//! planar graph.
//!
//! The crate is organised leaf-first:
//! - [`geom`]: integer screen coordinates, Euclidean distance and linear
//!   interpolation along a segment;
//! - [`animation`]: a frame timer that converts elapsed ticks into a
//!   completion fraction, and a linear "edge grow" animation built on it;
//! - [`world`]: nodes, edges and their finite draw states, plus the draw
//!   commands handed to a renderer;
//! - [`bfs`]: the traversal stepper that advances one frontier expansion
//!   per settled animation tick;
//! - [`sim`]: the per-frame update that gates the stepper on the global
//!   "no animation in flight" condition.
//!
//! Everything that touches a window, a clock or a random number generator
//! stays outside: callers hand in node positions, edge lists and elapsed
//! tick counts as plain values and receive draw commands back.

pub mod animation;
pub mod bfs;
pub mod geom;
pub mod sim;
pub mod world;
