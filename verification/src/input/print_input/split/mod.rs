//! Printing the pieces between newlines, each on its own.
pub mod rayon;
