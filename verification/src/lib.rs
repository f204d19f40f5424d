//! Animated spirograph curves drawn into a software framebuffer.
//!
//! The crate holds the integer side of the renderer: the pixel buffer, the
//! scanner that turns shape directives into an ordered list of curves, the
//! line stepper that paints a planned segment, the per-frame state machine
//! and the copy of a finished frame into a presentation surface. Real-valued
//! curve evaluation is left to the caller, which hands the library planned
//! segments and numbers by their bit patterns.

pub mod line;
pub mod present;
pub mod shapes;
pub mod sim;
pub mod sim_interface;
