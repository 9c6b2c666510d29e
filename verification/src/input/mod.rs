//! What to scan: standard input or a file.
use vstd::prelude::*;

pub mod print_input;

verus! {

/// An input to scan: standard input, or the file at a path.
#[derive(Debug)]
pub enum Input {
    Stdin(()),
    File(String),
}

impl Clone for Input {
    fn clone(&self) -> (r: Input)
        ensures
            r == *self,
    {
        match self {
            Input::Stdin(_) => Input::Stdin(()),
            Input::File(f) => Input::File(f.clone()),
        }
    }
}

impl Input {
    /// Whether this is standard input.
    pub fn is_stdin(&self) -> (r: bool)
        ensures
            r <==> *self is Stdin,
    {
        match self {
            Input::Stdin(_) => true,
            Input::File(_) => false,
        }
    }

    /// The path of a file input.
    pub fn path(&self) -> (p: Option<&str>)
        ensures
            *self is Stdin ==> p is None,
            *self matches Input::File(f) ==> p matches Some(q) && q@ == f@,
    {
        match self {
            Input::Stdin(_) => None,
            Input::File(f) => Some(f.as_str()),
        }
    }
}

/// The kind of input a scanner is built for.
#[derive(Debug)]
pub enum InputType {
    Stdin,
    File(String),
}

/// Standard input as a source of bytes.
#[derive(Debug, Clone, Copy, PartialEq, Eq)]
pub struct StdinInput;

/// A file, by path, as a source of bytes.
#[derive(Debug)]
pub struct FileInput {
    path: String,
}

impl FileInput {
    /// The file at `path`.
    pub fn new(path: String) -> (f: FileInput)
        ensures
            f.spec_path() == path@,
    {
        FileInput { path }
    }

    /// The path of the file.
    pub closed spec fn spec_path(&self) -> Seq<char> {
        self.path@
    }

    /// The path of the file.
    pub fn path(&self) -> (p: &str)
        ensures
            p@ == self.spec_path(),
    {
        self.path.as_str()
    }
}

/// Makes the input that an input type describes.
pub struct InputBuilder;

impl InputBuilder {
    /// The input for `input_type`: standard input, or the file at its path.
    pub fn new(input_type: InputType) -> (i: Input)
        ensures
            input_type is Stdin ==> i is Stdin,
            input_type matches InputType::File(p) ==> i matches Input::File(q) && q@ == p@,
    {
        match input_type {
            InputType::File(path) => Input::File(path),
            InputType::Stdin => Input::Stdin(()),
        }
    }
}

} // verus!
