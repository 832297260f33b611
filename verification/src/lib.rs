//! A terminal UI toolkit: a cell grid, a clipped drawing surface, and the
//! components drawn onto it, with their state machines and layout solvers.

pub mod geometry;
pub mod style;

pub mod graphemes;
pub mod chars;
pub mod width;
pub mod text;
pub mod event;
pub mod buffer;
pub mod surface;
pub mod view;
pub mod components;
