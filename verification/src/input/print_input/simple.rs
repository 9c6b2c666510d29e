//! The plain routines: one pass over the lines, in order.
use vstd::prelude::*;
use crate::search::{NEWLINE, memchr_byte};
use crate::lines::{
    complete_lines, tail_piece, is_line_start, lemma_concat_map_append,
    lemma_complete_lines_step, lemma_tail_after_line_start, lemma_split_at_line_start,
    lemma_found_newline, with_newline, law_split_pieces_shape,
};
use crate::stream::{
    LineStream, vec_views, fed_lines, joined, law_stream_matches_whole_input, lemma_joined_append,
    lemma_first_line_of_prefix,
};
use crate::matching::RegexError;
use crate::common::{ReadInputError, ScanError};
use crate::input::Input;
use crate::utils::write_util::{create_buf_write, flush, write_all};
use super::{
    lemma_lines_output_push, emit_line, regex_usable, shown_part, simple_line_output, simple_lines_output, simple_tail_output,
    simple_output, simple_failure_output,
};

verus! {

/// Prints the lines of a mapped file: `data` is the file's content.
/// Standard input cannot be mapped.  With a regular expression that does
/// not compile, the routine stops at the first line, after its keyword part.
/// Returns what is written and how the routine ended.
#[verifier::loop_isolation(false)]
pub fn file(keyword: &[u8], regex: &[u8], input: &Input, data: &[u8]) -> (r: (Vec<u8>, Result<(), ScanError>))
    ensures
        input is Stdin ==> r.0@ == Seq::<u8>::empty() && r.1 == Err::<(), ScanError>(ScanError::Read(ReadInputError::CannotMapStdin)),
        input is File && (regex_usable(regex@) || data@.len() == 0) ==>
            r.0@ == simple_output(keyword@, regex@, data@) && r.1 is Ok,
        input is File && !regex_usable(regex@) && data@.len() > 0 ==>
            r.0@ == simple_failure_output(keyword@, regex@, data@)
            && r.1 == Err::<(), ScanError>(ScanError::Regex(RegexError::Invalid)),
{
    if input.is_stdin() {
        return (Vec::new(), Err(ScanError::Read(ReadInputError::CannotMapStdin)));
    }
    let mut writer = create_buf_write();
    let len = data.len();
    let mut begin: usize = 0;
    proof {
        assert(data@.take(0) =~= Seq::<u8>::empty());
        assert(complete_lines(Seq::<u8>::empty()) =~= Seq::<Seq<u8>>::empty());
    }
    loop
        invariant
            begin <= len == data@.len(),
            is_line_start(data@, begin as int),
            writer@ == simple_lines_output(keyword@, regex@, complete_lines(data@.take(begin as int))),
            regex_usable(regex@) || begin == 0,
        decreases len - begin,
    {
        let rest = vstd::slice::slice_subrange(data, begin, len);
        match memchr_byte(NEWLINE, rest) {
            Some(pos) => {
                let end = begin + pos;
                proof {
                    lemma_found_newline(data@, begin as int, len as int, pos as int);
                    lemma_complete_lines_step(data@, begin as int, end as int);
                }
                let line = vstd::slice::slice_subrange(data, begin, end + 1);
                proof {
                    assert(line@ =~= data@.subrange(begin as int, end as int).push(NEWLINE));
                }
                match emit_line(&mut writer, keyword, regex, line, false) {
                    Ok(()) => {},
                    Err(e) => {
                        proof {
                            assert(data@.take(0) =~= Seq::<u8>::empty());
                            lemma_split_at_line_start(data@, end + 1);
                            assert(complete_lines(data@.take(end + 1)) =~= seq![data@.subrange(0, end as int)]);
                            law_split_pieces_shape(data@.skip(end + 1));
                            assert(complete_lines(data@)[0] == data@.subrange(0, end as int));
                        }
                        return (flush(&mut writer), Err(ScanError::Regex(e)));
                    },
                }
                proof {
                    lemma_lines_output_push(keyword@, regex@, complete_lines(data@.take(begin as int)), data@.subrange(begin as int, end as int));
                }
                begin = end + 1;
            },
            None => {
                proof {
                    assert(data@.skip(begin as int) =~= rest@);
                    lemma_tail_after_line_start(data@, begin as int);
                }
                if begin < len {
                    match emit_line(&mut writer, keyword, regex, rest, true) {
                        Ok(()) => {},
                        Err(e) => {
                            proof {
                                assert(data@.take(0) =~= Seq::<u8>::empty());
                            }
                            return (flush(&mut writer), Err(ScanError::Regex(e)));
                        },
                    }
                }
                return (flush(&mut writer), Ok(()));
            },
        }
    }
}

/// Prints the lines that one read of standard input completes.  `stream`
/// keeps the unfinished line between reads; `chunk` is what was read.
/// Returns what is written and how the routine ended: with a regular
/// expression that does not compile it stops at the first line.
#[verifier::loop_isolation(false)]
pub fn stdin_feed(keyword: &[u8], regex: &[u8], stream: &mut LineStream, chunk: &[u8]) -> (r: (Vec<u8>, Result<(), ScanError>))
    requires
        old(stream).wf(),
    ensures
        final(stream).wf(),
        final(stream).consumed() == old(stream).consumed() + chunk@,
        final(stream).emitted() == old(stream).emitted() + fed_lines(*old(stream), *final(stream)),
        regex_usable(regex@) ==> r.1 is Ok
            && r.0@ == simple_lines_output(keyword@, regex@, fed_lines(*old(stream), *final(stream))),
        !regex_usable(regex@) && fed_lines(*old(stream), *final(stream)).len() == 0 ==>
            r.1 is Ok && r.0@ == Seq::<u8>::empty(),
        !regex_usable(regex@) && fed_lines(*old(stream), *final(stream)).len() > 0 ==> ({
            let seg = fed_lines(*old(stream), *final(stream))[0].push(NEWLINE);
            &&& r.0@ == shown_part(keyword@, regex@, seg, seg)
            &&& r.1 == Err::<(), ScanError>(ScanError::Regex(RegexError::Invalid))
        }),
{
    let ghost before = *stream;
    let lines = stream.feed(chunk);
    let ghost new_lines = vec_views(lines@);
    proof {
        assert(fed_lines(before, *stream) =~= new_lines);
    }
    let mut writer = create_buf_write();
    let mut k: usize = 0;
    proof {
        assert(new_lines.take(0) =~= Seq::<Seq<u8>>::empty());
    }
    while k < lines.len()
        invariant
            k <= lines@.len(),
            new_lines == vec_views(lines@),
            writer@ == simple_lines_output(keyword@, regex@, new_lines.take(k as int)),
            regex_usable(regex@) || k == 0,
        decreases lines@.len() - k,
    {
        let seg = with_newline(lines[k].as_slice());
        match emit_line(&mut writer, keyword, regex, seg.as_slice(), false) {
            Ok(()) => {},
            Err(e) => {
                return (flush(&mut writer), Err(ScanError::Regex(e)));
            },
        }
        proof {
            assert(new_lines.take(k + 1) =~= new_lines.take(k as int).push(new_lines[k as int]));
            lemma_lines_output_push(keyword@, regex@, new_lines.take(k as int), new_lines[k as int]);
        }
        k = k + 1;
    }
    proof {
        assert(new_lines.take(lines@.len() as int) =~= new_lines);
    }
    (flush(&mut writer), Ok(()))
}

/// Prints the unterminated last line of standard input, once it has ended.
pub fn stdin_finish(keyword: &[u8], regex: &[u8], stream: LineStream) -> (r: (Vec<u8>, Result<(), ScanError>))
    requires
        stream.wf(),
    ensures
        regex_usable(regex@) ==> r.1 is Ok
            && r.0@ == simple_tail_output(keyword@, regex@, tail_piece(stream.consumed())),
        !regex_usable(regex@) && tail_piece(stream.consumed()).len() == 0 ==>
            r.1 is Ok && r.0@ == Seq::<u8>::empty(),
        !regex_usable(regex@) && tail_piece(stream.consumed()).len() > 0 ==> ({
            let t = tail_piece(stream.consumed());
            &&& r.0@ == shown_part(keyword@, regex@, t, t.push(NEWLINE))
            &&& r.1 == Err::<(), ScanError>(ScanError::Regex(RegexError::Invalid))
        }),
{
    let tail = stream.finish();
    let mut writer = create_buf_write();
    if tail.len() > 0 {
        match emit_line(&mut writer, keyword, regex, tail.as_slice(), true) {
            Ok(()) => {},
            Err(e) => {
                return (flush(&mut writer), Err(ScanError::Regex(e)));
            },
        }
    }
    (flush(&mut writer), Ok(()))
}

/// Reading standard input in chunks prints what mapping it as a file
/// prints: with a usable regular expression, the output of all reads
/// (the lines the stream handed out) and of the end (its tail) is the
/// output for the whole input.
pub proof fn law_stdin_prints_as_file(keyword: Seq<u8>, regex: Seq<u8>, s: LineStream)
    requires
        s.wf(),
    ensures
        simple_lines_output(keyword, regex, s.emitted()) + simple_tail_output(keyword, regex, tail_piece(s.consumed()))
            == simple_output(keyword, regex, s.consumed()),
{
    law_stream_matches_whole_input(s);
}

/// The output of successive reads adds up: the lines handed out by two
/// reads print as the first read's output followed by the second's.
pub proof fn law_stdin_reads_concatenate(keyword: Seq<u8>, regex: Seq<u8>, a: Seq<Seq<u8>>, b: Seq<Seq<u8>>)
    ensures
        simple_lines_output(keyword, regex, a + b)
            == simple_lines_output(keyword, regex, a) + simple_lines_output(keyword, regex, b),
{
    lemma_concat_map_append(a, b, |l: Seq<u8>| simple_line_output(keyword, regex, l));
}

/// Prints standard input that arrives in the reads `reads`, in order, as
/// the reading loop does: each read's lines as they complete, then the
/// unterminated last line; with a regular expression that does not compile
/// it stops at the first line.  Whatever the reads, it writes and returns
/// what `file` does on all their bytes.
pub fn stdin(keyword: &[u8], regex: &[u8], reads: &Vec<Vec<u8>>) -> (r: (Vec<u8>, Result<(), ScanError>))
    ensures
        ({
            let data = joined(vec_views(reads@));
            &&& (regex_usable(regex@) || data.len() == 0) ==>
                r.0@ == simple_output(keyword@, regex@, data) && r.1 is Ok
            &&& !regex_usable(regex@) && data.len() > 0 ==>
                r.0@ == simple_failure_output(keyword@, regex@, data)
                && r.1 == Err::<(), ScanError>(ScanError::Regex(RegexError::Invalid))
        }),
{
    let ghost views = vec_views(reads@);
    let ghost data = joined(views);
    let mut stream = LineStream::new();
    let mut writer = create_buf_write();
    let mut i: usize = 0;
    proof {
        assert(views.take(0) =~= Seq::<Seq<u8>>::empty());
        assert(simple_lines_output(keyword@, regex@, Seq::<Seq<u8>>::empty()) =~= Seq::<u8>::empty());
    }
    while i < reads.len()
        invariant
            i <= reads@.len(),
            views == vec_views(reads@),
            data == joined(views),
            stream.wf(),
            stream.consumed() == joined(views.take(i as int)),
            regex_usable(regex@) ==> writer@ == simple_lines_output(keyword@, regex@, stream.emitted()),
            !regex_usable(regex@) ==> stream.emitted().len() == 0 && writer@ == Seq::<u8>::empty(),
        decreases reads@.len() - i,
    {
        let ghost before = stream;
        let (bytes, res) = stdin_feed(keyword, regex, &mut stream, reads[i].as_slice());
        proof {
            assert(views.take(i + 1).drop_last() =~= views.take(i as int));
            assert(views.take(i + 1).last() == reads@[i as int]@);
            assert(stream.consumed() == joined(views.take(i + 1)));
            lemma_joined_append(views.take(i + 1), views.skip(i + 1));
            assert(views.take(i + 1) + views.skip(i + 1) =~= views);
        }
        match res {
            Err(e) => {
                proof {
                    let fed = fed_lines(before, stream);
                    law_stream_matches_whole_input(stream);
                    assert(stream.emitted() =~= fed);
                    lemma_first_line_of_prefix(stream.consumed(), joined(views.skip(i + 1)));
                }
                write_all(&mut writer, bytes.as_slice());
                proof {
                    assert(writer@ =~= bytes@);
                }
                return (flush(&mut writer), Err(e));
            },
            Ok(()) => {},
        }
        write_all(&mut writer, bytes.as_slice());
        proof {
            if regex_usable(regex@) {
                law_stdin_reads_concatenate(keyword@, regex@, before.emitted(), fed_lines(before, stream));
            } else {
                assert(fed_lines(before, stream).len() == 0);
                assert(stream.emitted() =~= before.emitted());
                assert(writer@ =~= Seq::<u8>::empty());
            }
        }
        i = i + 1;
    }
    proof {
        assert(views.take(reads@.len() as int) =~= views);
        law_stream_matches_whole_input(stream);
        law_split_pieces_shape(stream.consumed());
    }
    let ghost last = stream;
    let (bytes, res) = stdin_finish(keyword, regex, stream);
    write_all(&mut writer, bytes.as_slice());
    proof {
        if regex_usable(regex@) {
            law_stdin_prints_as_file(keyword@, regex@, last);
        } else if tail_piece(data).len() == 0 {
            assert(crate::lines::split_pieces(data) =~= seq![tail_piece(data)]);
            assert(data =~= Seq::<u8>::empty());
            assert(writer@ =~= Seq::<u8>::empty());
        } else {
            assert(writer@ =~= bytes@);
        }
    }
    (flush(&mut writer), res)
}

} // verus!
