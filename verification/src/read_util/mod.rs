//! Line readers that select lines by keyword alone.
//!
//! A line is selected when the keyword is empty or occurs in it.  Complete
//! lines are checked and written with their newline; an unterminated last
//! line is checked without one and, when selected, written with one added.
//! Every line is read, the empty ones included.
use vstd::prelude::*;
use crate::search::{NEWLINE, contains, memchr_byte, memmem_find};
use crate::lines::{
    complete_lines, tail_piece, concat_map, is_line_start, lemma_concat_map_append, lemma_complete_lines_step_from,
    lemma_empty_region, lemma_found_newline, lemma_tail_after_line_start, with_newline, lemma_lines_at_cut,
    text_lines, each_on_own_line, newline_free, newline_terminated, lemma_contains_with_newline,
    lemma_text_lines_on_own_lines,
};
use crate::stream::{LineStream, vec_views, fed_lines, joined, law_stream_matches_whole_input};
use crate::chunks::{chunk_bounds, chunk_part, chunk_parts, adds_up_over_lines, law_chunks_cover, law_chunks_hold_whole_lines};
use crate::input::Input;
use crate::utils::write_util::{BufWrite, create_buf_write, flush, write_all};
use crate::utils::stdout_util::BufWriterImpl;
use self::common::{Mode, ReadInputError};

pub mod common;

verus! {

/// The keyword is empty or occurs in `x`.
pub open spec fn keyword_selects(kw: Seq<u8>, x: Seq<u8>) -> bool {
    kw.len() == 0 || contains(x, kw)
}

/// What is written for a complete line (given without its newline).
pub open spec fn read_line_output(kw: Seq<u8>, line: Seq<u8>) -> Seq<u8> {
    if keyword_selects(kw, line.push(NEWLINE)) { line.push(NEWLINE) } else { Seq::<u8>::empty() }
}

/// What is written for a run of complete lines.
pub open spec fn read_lines_output(kw: Seq<u8>, lines: Seq<Seq<u8>>) -> Seq<u8> {
    concat_map(lines, |l: Seq<u8>| read_line_output(kw, l))
}

/// What is written for the unterminated last line `t`: the line and a
/// newline, when it is not empty and is selected.
pub open spec fn read_tail_output(kw: Seq<u8>, t: Seq<u8>) -> Seq<u8> {
    if t.len() > 0 && keyword_selects(kw, t) { t.push(NEWLINE) } else { Seq::<u8>::empty() }
}

/// What reading the text `s` writes: each selected complete line, then the
/// selected unterminated last line with a newline added.
pub open spec fn read_region_output(kw: Seq<u8>, s: Seq<u8>) -> Seq<u8> {
    read_lines_output(kw, complete_lines(s)) + read_tail_output(kw, tail_piece(s))
}

/// Reading a region, as a function of the region.
pub open spec fn read_region_fn(kw: Seq<u8>) -> spec_fn(Seq<u8>) -> Seq<u8> {
    |s: Seq<u8>| read_region_output(kw, s)
}

proof fn lemma_read_lines_push(kw: Seq<u8>, lines: Seq<Seq<u8>>, l: Seq<u8>)
    ensures
        read_lines_output(kw, lines.push(l)) == read_lines_output(kw, lines) + read_line_output(kw, l),
{
    assert(lines.push(l).drop_last() =~= lines);
}

/// Reading adds up over lines: reading a text cut at a line start writes
/// what reading the two parts writes.
pub proof fn lemma_read_region_adds_up(kw: Seq<u8>)
    ensures
        adds_up_over_lines(read_region_fn(kw)),
{
    let f = read_region_fn(kw);
    crate::lines::law_split_pieces_shape(Seq::<u8>::empty());
    assert(complete_lines(Seq::<u8>::empty()) =~= Seq::<Seq<u8>>::empty());
    assert(f(Seq::<u8>::empty()) =~= Seq::<u8>::empty());
    assert forall|s: Seq<u8>, i: int| 0 <= i <= s.len() && #[trigger] is_line_start(s, i)
        implies f(s) == f(s.take(i)) + f(s.skip(i)) by {
        lemma_lines_at_cut(s, i);
        lemma_concat_map_append(complete_lines(s.take(i)), complete_lines(s.skip(i)), |l: Seq<u8>| read_line_output(kw, l));
        assert(f(s) =~= f(s.take(i)) + f(s.skip(i)));
    }
}

/// Reads the region `data[b..e]` line by line, as both the file reader and
/// each chunk worker do, and writes what it selects.
fn read_region(writer: &mut BufWrite, keyword: &[u8], data: &[u8], b: usize, e: usize)
    requires
        b <= e <= data@.len(),
        b == 0 || data@[b - 1] == NEWLINE,
    ensures
        final(writer)@ == old(writer)@ + read_region_output(keyword@, data@.subrange(b as int, e as int)),
{
    let ghost start = writer@;
    let ghost s = data@.subrange(b as int, e as int);
    let mut begin: usize = b;
    proof {
        lemma_empty_region(data@, b as int);
        assert(start + Seq::<u8>::empty() =~= start);
    }
    loop
        invariant_except_break
            b <= begin <= e <= data@.len(),
            s == data@.subrange(b as int, e as int),
            begin == b || data@[begin - 1] == NEWLINE,
            writer@ == start + read_lines_output(keyword@, complete_lines(data@.subrange(b as int, begin as int))),
        ensures
            writer@ == start + read_region_output(keyword@, s),
        decreases e - begin,
    {
        let ghost done = complete_lines(data@.subrange(b as int, begin as int));
        let rest = vstd::slice::slice_subrange(data, begin, e);
        match memchr_byte(NEWLINE, rest) {
            Some(size) => {
                let k = begin + size;
                proof {
                    lemma_found_newline(data@, begin as int, e as int, size as int);
                    lemma_complete_lines_step_from(data@, b as int, begin as int, k as int);
                    lemma_read_lines_push(keyword@, done, data@.subrange(begin as int, k as int));
                }
                let line = vstd::slice::slice_subrange(data, begin, k + 1);
                proof {
                    assert(line@ =~= data@.subrange(begin as int, k as int).push(NEWLINE));
                }
                if keyword.is_empty() || memmem_find(line, keyword).is_some() {
                    write_all(writer, line);
                }
                proof {
                    assert(writer@ =~= start + read_lines_output(keyword@, complete_lines(data@.subrange(b as int, k + 1))));
                }
                begin = k + 1;
            },
            None => {
                proof {
                    let rel = begin - b;
                    if begin > b {
                        assert(s[rel - 1] == data@[begin - 1]);
                    }
                    assert(s.skip(rel) =~= rest@);
                    assert(s.take(rel) =~= data@.subrange(b as int, begin as int));
                    lemma_tail_after_line_start(s, rel);
                }
                if !rest.is_empty() && (keyword.is_empty() || memmem_find(rest, keyword).is_some()) {
                    writer.write_all_with_newline(rest);
                }
                proof {
                    assert(writer@ =~= start + read_region_output(keyword@, s));
                }
                break;
            },
        }
    }
}

/// Reads a mapped file (`data` is its content) and returns what it writes:
/// its selected lines, in order.
pub fn read_file(keyword: &[u8], data: &[u8]) -> (out: Vec<u8>)
    ensures
        out@ == read_region_output(keyword@, data@),
{
    let mut writer = create_buf_write();
    read_region(&mut writer, keyword, data, 0, data.len());
    proof {
        assert(data@.subrange(0, data@.len() as int) =~= data@);
    }
    flush(&mut writer)
}

/// What chunk worker `id` of `n` writes: its region, read as a file.
pub open spec fn chunk_read_output(kw: Seq<u8>, data: Seq<u8>, n: int, id: int) -> Seq<u8> {
    chunk_part(data, n, id, read_region_fn(kw))
}

/// What chunk worker `id` of `num_workers` writes over a mapped file
/// (`data` is its content): the work one thread does.
pub fn read_chunk_worker(keyword: &[u8], data: &[u8], num_workers: usize, id: usize) -> (out: Vec<u8>)
    requires
        id < num_workers,
    ensures
        out@ == chunk_read_output(keyword@, data@, num_workers as int, id as int),
{
    let mut writer = create_buf_write();
    proof {
        law_chunks_hold_whole_lines(data@, num_workers as int, id as int);
    }
    match chunk_bounds(data, num_workers, id) {
        Some((b, e)) => {
            if b < e {
                read_region(&mut writer, keyword, data, b, e);
                proof {
                    assert(Seq::<u8>::empty() + read_region_output(keyword@, data@.subrange(b as int, e as int))
                        =~= read_region_output(keyword@, data@.subrange(b as int, e as int)));
                }
            }
        },
        None => {},
    }
    flush(&mut writer)
}

/// Reading in chunks writes what reading the file whole writes, whatever
/// the number of workers: the workers' outputs, in order, are the output
/// of `read_file`.
pub proof fn law_read_chunks_as_whole(kw: Seq<u8>, data: Seq<u8>, n: int)
    requires
        n > 0,
    ensures
        chunk_parts(data, n, n, read_region_fn(kw)) == read_region_output(kw, data),
{
    lemma_read_region_adds_up(kw);
    law_chunks_cover(data, n, read_region_fn(kw));
}

/// Reads a mapped file in chunks, one worker per chunk (`data` is the
/// file's content), and returns what each worker `0..num_workers` writes.
/// Chunk mode needs a file, and an empty file is refused.
pub fn read_file_chunk(keyword: &[u8], input: &Input, data: &[u8], num_workers: usize) -> (r: Result<Vec<Vec<u8>>, ReadInputError>)
    ensures
        input is Stdin ==> r == Err::<Vec<Vec<u8>>, ReadInputError>(ReadInputError::CannotUseStdinWithChunkMode),
        input is File && data@.len() == 0 ==> r == Err::<Vec<Vec<u8>>, ReadInputError>(ReadInputError::EmptyFile),
        input is File && data@.len() > 0 ==> (r matches Ok(outs) && ({
            &&& outs@.len() == num_workers
            &&& forall|id: int| 0 <= id < num_workers ==>
                (#[trigger] outs@[id])@ == chunk_read_output(keyword@, data@, num_workers as int, id)
        })),
{
    if input.is_stdin() {
        return Err(ReadInputError::CannotUseStdinWithChunkMode);
    }
    if data.len() == 0 {
        return Err(ReadInputError::EmptyFile);
    }
    let mut outs: Vec<Vec<u8>> = Vec::new();
    let mut id: usize = 0;
    while id < num_workers
        invariant
            id <= num_workers,
            outs@.len() == id,
            forall|i: int| 0 <= i < id ==>
                (#[trigger] outs@[i])@ == chunk_read_output(keyword@, data@, num_workers as int, i),
        decreases num_workers - id,
    {
        outs.push(read_chunk_worker(keyword, data, num_workers, id));
        id = id + 1;
    }
    Ok(outs)
}

/// Reads one chunk of standard input and returns what it writes: the lines
/// the chunk completes, each when selected.
#[verifier::loop_isolation(false)]
pub fn read_stdin_feed(keyword: &[u8], stream: &mut LineStream, chunk: &[u8]) -> (out: Vec<u8>)
    requires
        old(stream).wf(),
    ensures
        final(stream).wf(),
        final(stream).consumed() == old(stream).consumed() + chunk@,
        final(stream).emitted() == old(stream).emitted() + fed_lines(*old(stream), *final(stream)),
        out@ == read_lines_output(keyword@, fed_lines(*old(stream), *final(stream))),
{
    let ghost before = *stream;
    let lines = stream.feed(chunk);
    let ghost new_lines = vec_views(lines@);
    proof {
        assert(fed_lines(before, *stream) =~= new_lines);
        assert(new_lines.take(0) =~= Seq::<Seq<u8>>::empty());
    }
    let mut writer = create_buf_write();
    let mut k: usize = 0;
    while k < lines.len()
        invariant
            k <= lines@.len(),
            new_lines == vec_views(lines@),
            writer@ == read_lines_output(keyword@, new_lines.take(k as int)),
        decreases lines@.len() - k,
    {
        let line = with_newline(lines[k].as_slice());
        if keyword.is_empty() || memmem_find(line.as_slice(), keyword).is_some() {
            write_all(&mut writer, line.as_slice());
        }
        proof {
            assert(new_lines.take(k + 1) =~= new_lines.take(k as int).push(new_lines[k as int]));
            lemma_read_lines_push(keyword@, new_lines.take(k as int), new_lines[k as int]);
        }
        k = k + 1;
    }
    proof {
        assert(new_lines.take(lines@.len() as int) =~= new_lines);
    }
    flush(&mut writer)
}

/// Ends reading standard input and returns what it writes for the
/// unterminated tail.
pub fn read_stdin_finish(keyword: &[u8], stream: LineStream) -> (out: Vec<u8>)
    requires
        stream.wf(),
    ensures
        out@ == read_tail_output(keyword@, tail_piece(stream.consumed())),
{
    let tail = stream.finish();
    let mut writer = create_buf_write();
    if !tail.is_empty() && (keyword.is_empty() || memmem_find(tail.as_slice(), keyword).is_some()) {
        writer.write_all_with_newline(tail.as_slice());
    }
    proof {
        assert(writer@ =~= read_tail_output(keyword@, tail_piece(stream.consumed())));
    }
    flush(&mut writer)
}

/// Reading standard input in chunks writes what reading it whole, or
/// reading it as a mapped file, writes: the output for the lines a stream
/// handed out and for its tail is the output for all input it consumed.
pub proof fn law_read_stdin_chunking(keyword: Seq<u8>, s: LineStream)
    requires
        s.wf(),
    ensures
        read_lines_output(keyword, s.emitted()) + read_tail_output(keyword, tail_piece(s.consumed()))
            == read_region_output(keyword, s.consumed()),
{
    law_stream_matches_whole_input(s);
}

/// The output of successive reads of standard input adds up.
pub proof fn law_read_stdin_reads_concatenate(keyword: Seq<u8>, a: Seq<Seq<u8>>, b: Seq<Seq<u8>>)
    ensures
        read_lines_output(keyword, a + b) == read_lines_output(keyword, a) + read_lines_output(keyword, b),
{
    lemma_concat_map_append(a, b, |l: Seq<u8>| read_line_output(keyword, l));
}

/// Reads standard input that arrives in the reads `reads`, in order, as the
/// reading loop does: whatever the reads, it writes what reading all their
/// bytes as a file writes.
pub fn read_stdin(keyword: &[u8], reads: &Vec<Vec<u8>>) -> (out: Vec<u8>)
    ensures
        out@ == read_region_output(keyword@, joined(vec_views(reads@))),
{
    let ghost views = vec_views(reads@);
    let mut stream = LineStream::new();
    let mut writer = create_buf_write();
    let mut i: usize = 0;
    proof {
        assert(views.take(0) =~= Seq::<Seq<u8>>::empty());
        assert(read_lines_output(keyword@, Seq::<Seq<u8>>::empty()) =~= Seq::<u8>::empty());
    }
    while i < reads.len()
        invariant
            i <= reads@.len(),
            views == vec_views(reads@),
            stream.wf(),
            stream.consumed() == joined(views.take(i as int)),
            writer@ == read_lines_output(keyword@, stream.emitted()),
        decreases reads@.len() - i,
    {
        let ghost before = stream;
        let bytes = read_stdin_feed(keyword, &mut stream, reads[i].as_slice());
        write_all(&mut writer, bytes.as_slice());
        proof {
            assert(views.take(i + 1).drop_last() =~= views.take(i as int));
            assert(views.take(i + 1).last() == reads@[i as int]@);
            law_read_stdin_reads_concatenate(keyword@, before.emitted(), fed_lines(before, stream));
        }
        i = i + 1;
    }
    proof {
        assert(views.take(reads@.len() as int) =~= views);
    }
    let ghost last = stream;
    let bytes = read_stdin_finish(keyword, stream);
    write_all(&mut writer, bytes.as_slice());
    proof {
        law_read_stdin_chunking(keyword@, last);
    }
    flush(&mut writer)
}

/// Which reader `read_input` runs.
#[derive(Debug, Clone, Copy, PartialEq, Eq, Structural)]
pub enum ReadRoutine {
    /// `read_stdin_feed` for each read, then `read_stdin_finish`.
    Stdin,
    /// `read_file` on the mapped file.
    File,
    /// `read_file_chunk` on the mapped file.
    FileChunk,
}

/// Chooses the reader: standard input is read as a stream; a file is read
/// whole in normal mode and in chunks in chunk mode.
pub fn read_input(mode: Mode, input: &Input) -> (r: ReadRoutine)
    ensures
        input is Stdin ==> r == ReadRoutine::Stdin,
        input is File && mode == Mode::Normal ==> r == ReadRoutine::File,
        input is File && mode == Mode::Chunk ==> r == ReadRoutine::FileChunk,
{
    if input.is_stdin() {
        ReadRoutine::Stdin
    } else {
        match mode {
            Mode::Normal => ReadRoutine::File,
            Mode::Chunk => ReadRoutine::FileChunk,
        }
    }
}

} // verus!
