//! A small music-theory library for a radial "related keys" display.
//!
//! The library models pitch spelling (letters, accidentals, octaves, keys),
//! computes the chromatic interval between notes, derives the six related
//! keys of any major or minor key with musically correct spelling, and lays
//! the resulting three-generation key tree out radially around a center,
//! deduplicating keys already shown at a shallower generation and growing
//! the rings linearly with an animation tick until they saturate at their
//! configured radii.

pub mod interval;
pub mod layout;
pub mod pitch;
pub mod related;
