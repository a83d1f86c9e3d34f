//! A library for locating regular files whose size exceeds a fixed
//! threshold inside a directory tree, and for rendering the matches as a
//! three-column CSV report (file name, human-readable size, full path).
//!
//! The library itself performs no I/O: a caller walks the tree, hands the
//! entries over as plain values, and writes the rendered bytes wherever
//! they belong.

pub mod entry;
pub mod record;
pub mod sink;
pub mod scan;
