//! A buffered writer: bytes written to it are held until it is flushed.
use vstd::prelude::*;

verus! {

/// The buffer size the scanners use for their output.
pub const OUTPUT_BUFFER_CAPACITY: usize = 65536usize;

/// Bytes written and not yet flushed.
pub struct BufWrite {
    buf: Vec<u8>,
}

impl View for BufWrite {
    type V = Seq<u8>;

    /// The bytes written since the last flush, in order.
    closed spec fn view(&self) -> Seq<u8> {
        self.buf@
    }
}

/// A writer holding nothing, with room for `OUTPUT_BUFFER_CAPACITY` bytes
/// before it grows.
pub fn create_buf_write() -> (w: BufWrite)
    ensures
        w@ == Seq::<u8>::empty(),
{
    BufWrite { buf: Vec::with_capacity(OUTPUT_BUFFER_CAPACITY) }
}

/// Writes all of `line` after what the writer already holds.
pub fn write_all(writer: &mut BufWrite, line: &[u8])
    ensures
        final(writer)@ == old(writer)@ + line@,
{
    let mut i: usize = 0;
    let ghost start = writer.buf@;
    while i < line.len()
        invariant
            i <= line@.len(),
            writer.buf@ == start + line@.take(i as int),
        decreases line@.len() - i,
    {
        writer.buf.push(line[i]);
        proof {
            assert(line@.take(i + 1) =~= line@.take(i as int).push(line@[i as int]));
        }
        i = i + 1;
    }
    proof {
        assert(line@.take(line@.len() as int) =~= line@);
    }
}

/// Hands out everything the writer holds, leaving it empty.
pub fn flush(writer: &mut BufWrite) -> (out: Vec<u8>)
    ensures
        out@ == old(writer)@,
        final(writer)@ == Seq::<u8>::empty(),
{
    let mut out: Vec<u8> = Vec::with_capacity(OUTPUT_BUFFER_CAPACITY);
    std::mem::swap(&mut out, &mut writer.buf);
    out
}

} // verus!
