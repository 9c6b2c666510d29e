//! Errors, the reading methods, and the per-line checks shared by the
//! printing routines.
use vstd::prelude::*;
use crate::search::{contains, find_keyword};
use crate::matching::{
    RegexError, compile_regex, lossy_string, regex_compiles, regex_find_items,
    regex_items, slice_views, utf8_lossy,
};
use crate::parse::{ParseError, str_eq};
use vstd::utf8::{valid_utf8, decode_utf8};

pub use crate::utils::write_util::{flush, write_all};

verus! {

/// Why an input cannot be read by a routine that maps files.
#[derive(Debug, Clone, Copy, PartialEq, Eq, Structural)]
pub enum ReadInputError {
    /// Standard input cannot be memory-mapped.
    CannotMapStdin,
    /// The file holds no bytes.
    EmptyFile,
}

impl ReadInputError {
    /// The error's message.
    pub fn message(&self) -> (m: &'static str)
        ensures
            *self == ReadInputError::CannotMapStdin ==> m@ == "Could map stdin."@,
            *self == ReadInputError::EmptyFile ==> m@ == "The file is empty."@,
    {
        match self {
            ReadInputError::CannotMapStdin => "Could map stdin.",
            ReadInputError::EmptyFile => "The file is empty.",
        }
    }
}

/// Why a printing routine stopped.
#[derive(Debug, Clone, Copy, PartialEq, Eq, Structural)]
pub enum ScanError {
    /// The input cannot be read this way.
    Read(ReadInputError),
    /// The regular expression does not compile.
    Regex(RegexError),
}

/// Modes of reading, named in lowercase ("simple", "rayon", "stdthread").
#[derive(Debug, Clone, Copy, PartialEq, Eq, Structural)]
pub enum Method {
    Simple,
    Rayon,
    StdThread,
}

impl Method {
    /// The lowercase name of the mode.
    pub open spec fn spec_name(self) -> Seq<char> {
        match self {
            Method::Simple => "simple"@,
            Method::Rayon => "rayon"@,
            Method::StdThread => "stdthread"@,
        }
    }

    /// Parses a mode from its lowercase name; the match is exact.
    pub fn from_str(s: &str) -> (r: Result<Method, ParseError>)
        ensures
            r matches Ok(m) ==> s@ == m.spec_name(),
            r is Err ==> (forall|m: Method| s@ != #[trigger] m.spec_name()),
            r matches Err(e) ==> e == ParseError::VariantNotFound,
    {
        if str_eq(s, "simple") {
            Ok(Method::Simple)
        } else if str_eq(s, "rayon") {
            Ok(Method::Rayon)
        } else if str_eq(s, "stdthread") {
            Ok(Method::StdThread)
        } else {
            proof {
                assert forall|m: Method| s@ != #[trigger] m.spec_name() by {
                    match m {
                        Method::Simple => {},
                        Method::Rayon => {},
                        Method::StdThread => {},
                    }
                }
            }
            Err(ParseError::VariantNotFound)
        }
    }
}

/// The line, when the keyword is not empty and occurs in it.
pub fn check_keyword<'a>(line: &'a [u8], keyword: &'a [u8]) -> (r: Option<&'a [u8]>)
    ensures
        r is Some <==> keyword@.len() > 0 && contains(line@, keyword@),
        r matches Some(l) ==> l@ == line@,
{
    if !keyword.is_empty() && find_keyword(line, keyword) {
        return Some(line);
    }
    None
}

/// The pattern that regular-expression bytes stand for.
pub open spec fn regex_pattern(regex_bytes: Seq<u8>) -> Seq<char> {
    utf8_lossy(regex_bytes)
}

/// The parts of `line` that the regular expression (given as bytes)
/// matches: `None` when no regular expression is given, an error when it
/// does not compile.
pub fn check_regex<'a>(line: &'a [u8], regex_bytes: &'a [u8]) -> (r: Result<Option<Vec<&'a [u8]>>, RegexError>)
    ensures
        r matches Ok(None) <==> regex_bytes@.len() == 0,
        r is Err <==> regex_bytes@.len() > 0 && !regex_compiles(regex_pattern(regex_bytes@)),
        r matches Ok(Some(v)) ==> slice_views(v@) == regex_items(regex_pattern(regex_bytes@), line@),
        regex_bytes@.len() > 0 && valid_utf8(regex_bytes@) ==> regex_pattern(regex_bytes@) == decode_utf8(regex_bytes@),
{
    if !regex_bytes.is_empty() {
        let pattern = lossy_string(regex_bytes);
        let regex = match compile_regex(pattern.as_str()) {
            Ok(re) => re,
            Err(e) => {
                return Err(e);
            },
        };
        let results = regex_find_items(&regex, line);
        return Ok(Some(results));
    }
    Ok(None)
}

/// The pattern that regular-expression bytes stand for is their text and
/// nothing more: the bytes read as UTF-8, each invalid sequence replaced,
/// with nothing added before or after.
pub proof fn law_regex_pattern_is_the_bytes_text(regex_bytes: Seq<u8>)
    ensures
        regex_pattern(regex_bytes) == utf8_lossy(regex_bytes),
{
}

} // verus!
