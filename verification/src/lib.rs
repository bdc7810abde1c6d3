//! A verified core for a small interactive Conway's Game of Life simulator.
//!
//! The crate holds the grid store, the life rule engine, the resize logic,
//! the pattern-file parser, the interaction controller's state machine and a
//! key-repeat debouncer.  Rendering, windowing and file dialogs are left to
//! the surrounding program, which drives this core through plain values.

pub mod grid;
pub mod life;
pub mod resize;
pub mod pattern;
pub mod controller;
pub mod debounce;
