//! LitePhoton: a fast text scanner that reads a file or standard input,
//! splits it into lines, and prints the lines that contain a keyword or
//! the parts of them that match a regular expression.
//!
//! This crate holds the scanning logic: line splitting, streaming line
//! assembly, chunk partitioning, matching, and the output each scanning
//! routine produces.  The program around it (argument parsing, opening and
//! mapping files, reading standard input, writing standard output, logging)
//! lives in the `app` crate.

pub mod search;
pub mod parse;
pub mod lines;
pub mod stream;
pub mod chunks;
pub mod matching;
pub mod utils;
pub mod common;
pub mod input;
pub mod read_util;
pub mod scan;
pub mod argument_parser;
pub mod environment;
