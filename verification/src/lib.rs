//! Render-side decisions of a Wayland compositor's TTY backend: cursor
//! images and timing, border and mask geometry, resize-animation budgets,
//! screenshot overlays and the plane-rejection recovery of frame submission.
pub mod geometry;
pub mod cursor;
pub mod recovery;
pub mod outcome;
pub mod submit;
pub mod screenshot;
pub mod scene;
pub mod borders;
pub mod rounded;
pub mod animation;
pub mod transitions;
pub mod program;
pub mod retention;
pub mod pointer;
