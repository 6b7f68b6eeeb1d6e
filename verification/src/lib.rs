//! Core of a Tox TCP relay and the codec of the Tox state format.
//!
//! The relay routes packets between authenticated clients through per-client
//! link tables; the codec reads and writes the tagged, length-prefixed
//! sections of a saved state. Every function carries its contract and is
//! proved against it.

pub mod toxcore;
