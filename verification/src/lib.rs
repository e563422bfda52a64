//! Library behind a small command-line video editing helper.
//!
//! The helper turns a handful of editing intents (speed change, pitch
//! shift, trimming, muting) into the argument list of an external media
//! tool, and picks an output file name that does not collide with an
//! existing file. This crate holds the part of that work that is pure
//! computation over strings and lists: building the argument list in a
//! fixed order, validating the input file's extension, and stepping the
//! output-name resolver. Reading the command line, probing the
//! filesystem and running the external tool stay with the binary that
//! uses the crate.

pub mod args;
pub mod paths;
pub mod plan;
pub mod resolve;
