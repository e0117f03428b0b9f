//! Follows a text file and reports its most recent line each time the file changes.
//!
//! `tail` holds the reverse line scan: a model of the lines of a byte stream, last
//! first, and the checked use of the scanner. `session` holds the decisions that the
//! watch loop takes on each notification, and the watch's configuration.
pub mod session;
pub mod tail;
