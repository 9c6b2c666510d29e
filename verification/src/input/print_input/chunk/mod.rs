//! Printing a mapped file in chunks, one worker per chunk.
//!
//! Workers `0..n` each take the chunk `chunks::chunk_bounds` gives them and
//! print its lines as the plain routine does; a regular expression that
//! does not compile selects nothing.  The chunks cover the file exactly
//! once, so the workers' outputs, in order, are the plain output of the
//! whole file (`law_chunk_prints_as_simple`).
use vstd::prelude::*;
use crate::search::{NEWLINE, memchr_byte};
use crate::lines::{
    complete_lines, is_line_start, lemma_complete_lines_step_from, lemma_empty_region,
    lemma_found_newline, lemma_tail_after_line_start, lemma_lines_at_cut, lemma_concat_map_append,
};
use crate::chunks::{chunk_bounds, chunk_part, chunk_parts, adds_up_over_lines, law_chunks_cover, law_chunks_hold_whole_lines};
use crate::common::{ReadInputError, ScanError};
use crate::input::Input;
use crate::utils::write_util::{BufWrite, create_buf_write, flush};
use super::{lemma_lines_output_push, emit_line, regex_part, shown_part, simple_line_output, simple_lines_output, simple_output};

pub mod stdthread;
pub mod rayon;

verus! {

/// Plain printing, as a function of the text printed.
pub open spec fn simple_fn(kw: Seq<u8>, re: Seq<u8>) -> spec_fn(Seq<u8>) -> Seq<u8> {
    |s: Seq<u8>| simple_output(kw, re, s)
}

/// What worker `id` of `n` prints: the plain output of its chunk.
pub open spec fn chunk_worker_output(kw: Seq<u8>, re: Seq<u8>, data: Seq<u8>, n: int, id: int) -> Seq<u8> {
    chunk_part(data, n, id, simple_fn(kw, re))
}

/// Plain printing adds up over lines: printing a text cut at a line start
/// prints what printing the two parts prints.
pub proof fn lemma_simple_adds_up(kw: Seq<u8>, re: Seq<u8>)
    ensures
        adds_up_over_lines(simple_fn(kw, re)),
{
    let f = simple_fn(kw, re);
    crate::lines::law_split_pieces_shape(Seq::<u8>::empty());
    assert(complete_lines(Seq::<u8>::empty()) =~= Seq::<Seq<u8>>::empty());
    assert(f(Seq::<u8>::empty()) =~= Seq::<u8>::empty());
    assert forall|s: Seq<u8>, i: int| 0 <= i <= s.len() && #[trigger] is_line_start(s, i)
        implies f(s) == f(s.take(i)) + f(s.skip(i)) by {
        lemma_lines_at_cut(s, i);
        lemma_concat_map_append(complete_lines(s.take(i)), complete_lines(s.skip(i)), |l: Seq<u8>| simple_line_output(kw, re, l));
        assert(f(s) =~= f(s.take(i)) + f(s.skip(i)));
    }
}

/// Printing in chunks prints what the plain routine prints: whatever the
/// number of workers, their outputs, in order, are the plain output of the
/// whole data.
pub proof fn law_chunk_prints_as_simple(kw: Seq<u8>, re: Seq<u8>, data: Seq<u8>, n: int)
    requires
        n > 0,
    ensures
        chunk_parts(data, n, n, simple_fn(kw, re)) == simple_output(kw, re, data),
{
    lemma_simple_adds_up(kw, re);
    law_chunks_cover(data, n, simple_fn(kw, re));
}

/// Writes `line` or its parts as `emit_line` does, carrying on when the
/// regular expression does not compile (it then selects nothing).
fn emit_line_lenient(writer: &mut BufWrite, keyword: &[u8], regex: &[u8], line: &[u8], add_newline: bool)
    ensures
        final(writer)@ == old(writer)@ + shown_part(keyword@, regex@, line@, super::shown_text(line@, add_newline))
            + regex_part(regex@, line@),
{
    let ghost start = writer@;
    let r = emit_line(writer, keyword, regex, line, add_newline);
    proof {
        if r is Err {
            assert(regex_part(regex@, line@) == Seq::<u8>::empty());
            assert(writer@ =~= writer@ + Seq::<u8>::empty());
        }
    }
}

/// Prints the lines of `data[b..e]` as the plain routine does.
fn print_region(writer: &mut BufWrite, keyword: &[u8], regex: &[u8], data: &[u8], b: usize, e: usize)
    requires
        b <= e <= data@.len(),
        b == 0 || data@[b - 1] == NEWLINE,
    ensures
        final(writer)@ == old(writer)@ + simple_output(keyword@, regex@, data@.subrange(b as int, e as int)),
{
    let ghost start = writer@;
    let ghost s = data@.subrange(b as int, e as int);
    let mut begin: usize = b;
    proof {
        lemma_empty_region(data@, b as int);
        assert(start + Seq::<u8>::empty() =~= start);
    }
    loop
        invariant_except_break
            b <= begin <= e <= data@.len(),
            s == data@.subrange(b as int, e as int),
            begin == b || data@[begin - 1] == NEWLINE,
            writer@ == start + simple_lines_output(keyword@, regex@, complete_lines(data@.subrange(b as int, begin as int))),
        ensures
            writer@ == start + simple_output(keyword@, regex@, s),
        decreases e - begin,
    {
        let ghost done = complete_lines(data@.subrange(b as int, begin as int));
        let rest = vstd::slice::slice_subrange(data, begin, e);
        match memchr_byte(NEWLINE, rest) {
            Some(size) => {
                let k = begin + size;
                proof {
                    lemma_found_newline(data@, begin as int, e as int, size as int);
                    lemma_complete_lines_step_from(data@, b as int, begin as int, k as int);
                    lemma_lines_output_push(keyword@, regex@, done, data@.subrange(begin as int, k as int));
                }
                let line = vstd::slice::slice_subrange(data, begin, k + 1);
                proof {
                    assert(line@ =~= data@.subrange(begin as int, k as int).push(NEWLINE));
                }
                emit_line_lenient(writer, keyword, regex, line, false);
                proof {
                    assert(writer@ =~= start + simple_lines_output(keyword@, regex@, complete_lines(data@.subrange(b as int, k + 1))));
                }
                begin = k + 1;
            },
            None => {
                proof {
                    let rel = begin - b;
                    if begin > b {
                        assert(s[rel - 1] == data@[begin - 1]);
                    }
                    assert(s.skip(rel) =~= rest@);
                    assert(s.take(rel) =~= data@.subrange(b as int, begin as int));
                    lemma_tail_after_line_start(s, rel);
                }
                if !rest.is_empty() {
                    emit_line_lenient(writer, keyword, regex, rest, true);
                }
                proof {
                    assert(writer@ =~= start + simple_output(keyword@, regex@, s));
                }
                break;
            },
        }
    }
}

/// What worker `id` of `num_workers` prints over a mapped file (`data` is
/// its content): the work one thread does.
pub fn worker(keyword: &[u8], regex: &[u8], data: &[u8], num_workers: usize, id: usize) -> (out: Vec<u8>)
    requires
        id < num_workers,
    ensures
        out@ == chunk_worker_output(keyword@, regex@, data@, num_workers as int, id as int),
{
    let mut writer = create_buf_write();
    proof {
        law_chunks_hold_whole_lines(data@, num_workers as int, id as int);
    }
    match chunk_bounds(data, num_workers, id) {
        Some((b, e)) => {
            if b < e {
                print_region(&mut writer, keyword, regex, data, b, e);
                proof {
                    assert(Seq::<u8>::empty() + simple_output(keyword@, regex@, data@.subrange(b as int, e as int))
                        =~= simple_output(keyword@, regex@, data@.subrange(b as int, e as int)));
                }
            }
        },
        None => {},
    }
    flush(&mut writer)
}

/// The output of each worker `0..num_workers` over a mapped file (`data` is
/// its content), in the order of the workers.  Standard input cannot be
/// mapped, and an empty file is refused.
pub fn file(keyword: &[u8], regex: &[u8], input: &Input, data: &[u8], num_workers: usize) -> (r: Result<Vec<Vec<u8>>, ScanError>)
    requires
        input is File && data@.len() > 0 ==> num_workers > 0,
    ensures
        input is Stdin ==> r == Err::<Vec<Vec<u8>>, ScanError>(ScanError::Read(ReadInputError::CannotMapStdin)),
        input is File && data@.len() == 0 ==> r == Err::<Vec<Vec<u8>>, ScanError>(ScanError::Read(ReadInputError::EmptyFile)),
        input is File && data@.len() > 0 ==> (r matches Ok(outs) && ({
            &&& outs@.len() == num_workers
            &&& forall|id: int| 0 <= id < num_workers ==>
                (#[trigger] outs@[id])@ == chunk_worker_output(keyword@, regex@, data@, num_workers as int, id)
        })),
{
    if input.is_stdin() {
        return Err(ScanError::Read(ReadInputError::CannotMapStdin));
    }
    if data.len() == 0 {
        return Err(ScanError::Read(ReadInputError::EmptyFile));
    }
    let mut outs: Vec<Vec<u8>> = Vec::new();
    let mut id: usize = 0;
    while id < num_workers
        invariant
            id <= num_workers,
            outs@.len() == id,
            forall|i: int| 0 <= i < id ==>
                (#[trigger] outs@[i])@ == chunk_worker_output(keyword@, regex@, data@, num_workers as int, i),
        decreases num_workers - id,
    {
        outs.push(worker(keyword, regex, data, num_workers, id));
        id = id + 1;
    }
    Ok(outs)
}

} // verus!
