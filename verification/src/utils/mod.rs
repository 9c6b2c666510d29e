//! Output buffering and buffer helpers.
pub mod write_util;
pub mod string_util;
pub mod stdout_util;
