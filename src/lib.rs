//! A streaming filter that finds mangled symbol names in byte lines and
//! replaces each one with its demangled rendering, leaving every other byte
//! exactly as it was.

pub mod engine;
pub mod laws;
pub mod pattern;
pub mod render;

pub use engine::{substitute, Filter};
pub use pattern::{MatchSpan, PatternError, SymbolPattern};
pub use render::{finish_text, render_candidate, render_name, Options};
