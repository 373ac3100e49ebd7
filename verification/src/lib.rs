//! A cursor-based lexical scanner: it walks a text buffer byte by byte or
//! character by character, attempts regular-expression matches anchored at the
//! current position, and exposes the capture groups of the most recent match.

pub mod rex;
pub mod scanner;
pub mod text;

pub use scanner::{MatchCaps, StringScanner, bol_at};

