//! Turns a captured call stack into a readable, multi-line report.
//!
//! The library works on plain frame data (`Frame`, `Symbol`): noise frames at
//! both ends of the trace are trimmed, names are demangled, adjacent duplicate
//! names are collapsed, and paths into the Cargo registry are shortened.

pub mod text;
pub mod path;
pub mod frame;
pub mod filter;
pub mod render;
pub mod report;
