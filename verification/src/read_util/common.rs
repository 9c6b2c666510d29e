//! Errors and modes of the line readers.
use vstd::prelude::*;
use crate::parse::{ParseError, str_eq};

pub use crate::utils::write_util::{flush, write_all};

verus! {

/// Why an input cannot be read in the requested mode.
#[derive(Debug, Clone, Copy, PartialEq, Eq, Structural)]
pub enum ReadInputError {
    /// Chunk mode needs a file; standard input cannot be cut into chunks.
    CannotUseStdinWithChunkMode,
    /// The file holds no bytes.
    EmptyFile,
}

impl ReadInputError {
    /// The error's message.
    pub fn message(&self) -> (m: &'static str)
        ensures
            *self == ReadInputError::CannotUseStdinWithChunkMode ==> m@ == "Could not use chunk mode while input is STDIN."@,
            *self == ReadInputError::EmptyFile ==> m@ == "The file is empty."@,
    {
        match self {
            ReadInputError::CannotUseStdinWithChunkMode => "Could not use chunk mode while input is STDIN.",
            ReadInputError::EmptyFile => "The file is empty.",
        }
    }
}

/// Modes of reading, named in lowercase ("normal", "chunk").
#[derive(Debug, Clone, Copy, PartialEq, Eq, Structural)]
pub enum Mode {
    Normal,
    Chunk,
}

impl Mode {
    /// The lowercase name of the mode.
    pub open spec fn spec_name(self) -> Seq<char> {
        match self {
            Mode::Normal => "normal"@,
            Mode::Chunk => "chunk"@,
        }
    }

    /// Parses a mode from its lowercase name; the match is exact.
    pub fn from_str(s: &str) -> (r: Result<Mode, ParseError>)
        ensures
            r matches Ok(m) ==> s@ == m.spec_name(),
            r is Err ==> (forall|m: Mode| s@ != #[trigger] m.spec_name()),
            r matches Err(e) ==> e == ParseError::VariantNotFound,
    {
        if str_eq(s, "normal") {
            Ok(Mode::Normal)
        } else if str_eq(s, "chunk") {
            Ok(Mode::Chunk)
        } else {
            proof {
                assert forall|m: Mode| s@ != #[trigger] m.spec_name() by {
                    match m {
                        Mode::Normal => {},
                        Mode::Chunk => {},
                    }
                }
            }
            Err(ParseError::VariantNotFound)
        }
    }
}

} // verus!
