//! A verified core for a compile-time template engine: a block scanner for a
//! delimiter grammar with whitespace trimming, a group assembler, a markup
//! escaper with static strategy selection, and a code generator with
//! content-hash-addressed caching.

pub mod assemble;
pub mod chars;
pub mod compile;
pub mod escape;
pub mod fast_integer;
pub mod generate;
pub mod laws;
pub mod message;
pub mod path;
pub mod raw_marker;
pub mod render;
pub mod scan;
pub mod source;
pub mod strip;
