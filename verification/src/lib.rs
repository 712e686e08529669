//! A verified core for a framebuffer clock display.
//!
//! The crate owns the logic of a small clock-face renderer: parsing a
//! line-oriented command protocol, measuring and placing text blocks on a
//! pixel surface, and compositing glyph coverage into an off-screen RGB565
//! frame. Shaping glyphs with a real font and publishing the frame to a
//! memory-mapped device are left to an unverified shell around this crate,
//! which hands glyph rasters in and copies finished frames out.

pub mod bytes;
pub mod color;
pub mod command;
pub mod frame;
pub mod geometry;
pub mod layout;
pub mod place;
pub mod state;
