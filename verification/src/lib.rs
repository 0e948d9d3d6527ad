//! A fixed-size Conway's Game of Life engine: a rectangular grid of binary
//! cells, the eight-neighbor counting rule with hard edges, the synchronous
//! generation update, a loader for a line-oriented plaintext pattern format
//! with an origin-offset directive, and a renderer that lays the grid out as
//! bordered text lines.

pub mod grid;
pub mod loader;
pub mod render;
pub mod sim;
