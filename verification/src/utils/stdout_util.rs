//! Writing results one per line.
use vstd::prelude::*;
use crate::utils::write_util::{BufWrite, write_all, create_buf_write};
use crate::search::NEWLINE;

verus! {

/// Writers that can write a result followed by a newline.
pub trait BufWriterImpl {
    /// Writes `bytes`, then a newline.
    fn write_all_with_newline(&mut self, bytes: &[u8]);
}

impl BufWriterImpl for BufWrite {
    fn write_all_with_newline(&mut self, bytes: &[u8])
        ensures
            final(self)@ == old(self)@ + bytes@ + seq![NEWLINE],
    {
        write_all(self, bytes);
        let nl: [u8; 1] = [NEWLINE];
        write_all(self, nl.as_slice());
        proof {
            assert(nl@ =~= seq![NEWLINE]);
        }
    }
}

/// Writes each item followed by a newline.
pub fn write_each_on_own_line(writer: &mut BufWrite, items: &Vec<&[u8]>)
    ensures
        final(writer)@ == old(writer)@ + crate::lines::each_on_own_line(crate::matching::slice_views(items@)),
{
    let ghost start = writer@;
    let mut k: usize = 0;
    while k < items.len()
        invariant
            k <= items@.len(),
            writer@ == start + crate::lines::each_on_own_line(crate::matching::slice_views(items@.take(k as int))),
        decreases items@.len() - k,
    {
        let item: &[u8] = items[k];
        writer.write_all_with_newline(item);
        proof {
            let v = crate::matching::slice_views(items@.take(k + 1));
            assert(v.drop_last() =~= crate::matching::slice_views(items@.take(k as int)));
            assert(v.last() == item@);
            assert(writer@ =~= start + crate::lines::each_on_own_line(v));
        }
        k = k + 1;
    }
    proof {
        assert(items@.take(items@.len() as int) =~= items@);
    }
}

/// The writer that standard output is written through.
pub fn create_stdout_buf_write() -> (w: BufWrite)
    ensures
        w@ == Seq::<u8>::empty(),
{
    create_buf_write()
}

} // verus!
