//! Icon layout persistence: reconcile a directory listing with a previously
//! saved icon layout, keep an authoritative name -> position registry, and
//! serialize it back to a durable, round-trippable text form.
//!
//! Screen coordinates are carried as the raw bit patterns of 32-bit IEEE-754
//! floats (`u32`), so the core logic never performs floating-point
//! computation; the presentation boundary converts with `f32::to_bits` /
//! `f32::from_bits`.

pub mod codec;
pub mod hexnum;
pub mod laws;
pub mod parse;
pub mod record;
pub mod registry;
