//! Interpreter core for a two-dimensional, grid-based esoteric language.
//!
//! A program is a rectangular (possibly jagged) grid of characters. A single
//! agent (the "snake") moves across the grid one cell per step; the character
//! under the agent after each move is decoded into a command that mutates the
//! agent's body, its direction, or a small named-variable store, or emits
//! output. The body's segment count is the language's only directly
//! programmable numeric value.

pub mod data;
pub mod digits;
pub mod grid;
pub mod input;
pub mod laws;
pub mod snake;
pub mod vars;
