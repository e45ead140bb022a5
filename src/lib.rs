//! A falling-glyph ("digital rain") simulation for character terminals.
//!
//! The library holds the simulation itself: drops that fall, fade from a head
//! colour along their length and are recycled once they leave the screen, and
//! the terminal writes that each frame calls for, as plain values. Performing
//! those writes is left to the caller.
pub mod color;
pub mod drop;
pub mod glyphs;
pub mod rain;
mod random;
