//! The software cursor: the built-in arrow, settings, themed frames and
//! the animation clock.
pub mod arrow;
pub mod settings;
pub mod frames;
pub mod clock;
pub mod theme;
pub mod cache;
