//! Core of a minimal terminal emulator: a shared terminal buffer fed by a
//! pseudoterminal reader, a glyph layout engine with wrapping and kerning,
//! a glyph atlas cache with shelf packing, and a frame geometry builder
//! that emits one quad per glyph in normalized device coordinates.
//!
//! All coordinates and font metrics are integer pixel values; the host
//! converts a font's fractional metrics to integers before calling in, and
//! divides the returned coordinate numerators by their denominators when
//! handing geometry to the GPU.

pub mod atlas;
pub mod buffer;
pub mod font;
pub mod geometry;
pub mod layout;
pub mod session;
