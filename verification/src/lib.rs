//! Counts the lines of source files under a directory tree, splitting each
//! file's lines into code, comment and blank lines.
//!
//! The library has two parts. The line classifier tags every line of a file
//! as blank, code or comment, tracking whether the scan is inside a
//! triple-quote block comment. The tree walker visits an in-memory directory
//! tree, selects the files whose extension matches exactly, classifies each
//! one and accumulates the per-file tallies into a running total.

pub mod classify;
pub mod count;
pub mod scan;
