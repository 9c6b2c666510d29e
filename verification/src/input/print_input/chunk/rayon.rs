//! Chunk workers on the rayon thread pool.
use vstd::prelude::*;
use crate::common::ScanError;
use crate::input::Input;
use super::chunk_worker_output;
use crate::common::ReadInputError;

verus! {

/// The output of each chunk worker over a mapped file, as
/// `print_input::chunk::file` gives it; the workers run in
/// the rayon thread pool.
pub fn file(keyword: &[u8], regex: &[u8], input: &Input, data: &[u8], num_workers: usize) -> (r: Result<Vec<Vec<u8>>, ScanError>)
    requires
        input is File && data@.len() > 0 ==> num_workers > 0,
    ensures
        input is Stdin ==> r == Err::<Vec<Vec<u8>>, ScanError>(ScanError::Read(ReadInputError::CannotMapStdin)),
        input is File && data@.len() == 0 ==> r == Err::<Vec<Vec<u8>>, ScanError>(ScanError::Read(ReadInputError::EmptyFile)),
        input is File && data@.len() > 0 ==> (r matches Ok(outs) && ({
            &&& outs@.len() == num_workers
            &&& forall|id: int| 0 <= id < num_workers ==>
                (#[trigger] outs@[id])@ == chunk_worker_output(keyword@, regex@, data@, num_workers as int, id)
        })),
{
    super::file(keyword, regex, input, data, num_workers)
}

} // verus!
