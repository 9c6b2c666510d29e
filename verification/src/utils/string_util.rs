//! Buffers for reading lines, and regular-expression compilation.
use vstd::prelude::*;

pub use crate::matching::compile_regex;

verus! {

/// The initial capacity of the buffer that holds an unfinished line.
pub const LINE_BUFFER_CAPACITY: usize = 4096usize;

/// The size of the buffer that input is read into.
pub const READ_BUFFER_SIZE: usize = 262144usize;

/// An empty buffer for an unfinished line.
pub fn create_line_buf() -> (b: Vec<u8>)
    ensures
        b@ == Seq::<u8>::empty(),
{
    Vec::with_capacity(LINE_BUFFER_CAPACITY)
}

/// A zeroed buffer to read input into.
pub fn create_read_buf() -> (b: Vec<u8>)
    ensures
        b@.len() == READ_BUFFER_SIZE,
        forall|i: int| 0 <= i < b@.len() ==> b@[i] == 0u8,
{
    let mut b: Vec<u8> = Vec::with_capacity(READ_BUFFER_SIZE);
    let mut i: usize = 0;
    while i < READ_BUFFER_SIZE
        invariant
            i <= READ_BUFFER_SIZE,
            b@.len() == i,
            forall|j: int| 0 <= j < b@.len() ==> b@[j] == 0u8,
        decreases READ_BUFFER_SIZE - i,
    {
        b.push(0u8);
        i = i + 1;
    }
    b
}

} // verus!
