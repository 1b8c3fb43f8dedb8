//! A minimal interpreter for a tiny tape-based instruction language: eight
//! one-character commands act on a growable tape of byte cells through a
//! movable data pointer, and `[` / `]` form loops matched by nesting depth.
//!
//! The engine itself is pure: it never touches an input or output stream.
//! `.` appends to a caller-supplied buffer, and `,` suspends execution so the
//! caller can hand one input byte back in through `engine::resume`.

pub mod engine;
pub mod laws;
pub mod machine;
