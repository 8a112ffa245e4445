//! Canonicalizes human-authored text into a deterministic byte form, so that
//! texts differing only in superficial Unicode representation (full-width
//! characters, curly quotes, exotic dashes, stray whitespace) compare and
//! hash as identical.
pub mod canon;
pub mod classes;
pub mod encode;
pub mod normalize;
pub mod passes;
pub mod replace;
