//! The lines of a file, handed to parallel workers one by one.
//!
//! The lines are the pieces between newlines, without the empty piece after
//! a final newline.  Each line is handled on its own: it is written when
//! neither keyword nor regular expression is given or when the keyword
//! occurs in it, else its matched parts are written; whatever is written
//! goes on a line of its own.  The workers finish in no fixed order, so the
//! lines' outputs may reach standard output in any order; `file` gives them
//! in the order of the lines.
use vstd::prelude::*;
use crate::search::{NEWLINE, contains};
use crate::lines::{
    line_spans, text_lines, newline_terminated, each_on_own_line, concat_map, newline_free,
    lemma_text_lines_on_own_lines,
};
use crate::matching::{regex_items, regex_compiles, utf8_lossy};
use crate::common::{ReadInputError, ScanError, check_keyword, check_regex, regex_pattern};
use crate::input::Input;
use crate::input::print_input::{regex_valid, simple_output, law_simple_keyword_selects_lines, law_simple_prints_contents};
use crate::utils::write_util::{create_buf_write, flush};
use crate::utils::stdout_util::{BufWriterImpl, write_each_on_own_line};

verus! {

/// What is written for one piece (a piece holds no newline).
pub open spec fn split_piece_output(kw: Seq<u8>, re: Seq<u8>, piece: Seq<u8>) -> Seq<u8> {
    if kw.len() == 0 && re.len() == 0 {
        piece.push(NEWLINE)
    } else if kw.len() > 0 && contains(piece, kw) {
        piece.push(NEWLINE)
    } else if regex_valid(re) {
        each_on_own_line(regex_items(regex_pattern(re), piece))
    } else {
        Seq::<u8>::empty()
    }
}

/// What split printing writes for one line: the line and a newline when
/// neither keyword nor regular expression is given, or when the keyword
/// occurs in it as a run of consecutive bytes; otherwise, for a regular
/// expression that compiles (from the text of its bytes), every part of the
/// line it matches, in order, each followed by a newline; otherwise nothing.
pub proof fn law_split_line_output(kw: Seq<u8>, re: Seq<u8>, piece: Seq<u8>)
    ensures
        kw.len() == 0 && re.len() == 0 ==> split_piece_output(kw, re, piece) == piece.push(NEWLINE),
        kw.len() > 0 && (exists|i: int| 0 <= i && i + kw.len() <= piece.len() && #[trigger] piece.subrange(i, i + kw.len()) == kw)
            ==> split_piece_output(kw, re, piece) == piece.push(NEWLINE),
        (kw.len() == 0 || !(exists|i: int| 0 <= i && i + kw.len() <= piece.len() && #[trigger] piece.subrange(i, i + kw.len()) == kw))
            && re.len() > 0 && regex_compiles(utf8_lossy(re))
            ==> split_piece_output(kw, re, piece) == each_on_own_line(
                regex_items(utf8_lossy(re), piece)),
        (kw.len() == 0 || !(exists|i: int| 0 <= i && i + kw.len() <= piece.len() && #[trigger] piece.subrange(i, i + kw.len()) == kw))
            && re.len() > 0 && !regex_compiles(utf8_lossy(re))
            ==> split_piece_output(kw, re, piece) == Seq::<u8>::empty(),
{
    if exists|i: int| 0 <= i && i + kw.len() <= piece.len() && #[trigger] piece.subrange(i, i + kw.len()) == kw {
        let i = choose|i: int| 0 <= i && i + kw.len() <= piece.len() && #[trigger] piece.subrange(i, i + kw.len()) == kw;
        assert(crate::search::occurs_at(piece, kw, i));
    }
}

/// The outputs of all lines of `data`, one after another.
pub open spec fn split_output(kw: Seq<u8>, re: Seq<u8>, data: Seq<u8>) -> Seq<u8> {
    concat_map(text_lines(data), |p: Seq<u8>| split_piece_output(kw, re, p))
}

proof fn lemma_unfiltered_pieces_output(pieces: Seq<Seq<u8>>)
    ensures
        concat_map(pieces, |p: Seq<u8>| split_piece_output(Seq::<u8>::empty(), Seq::<u8>::empty(), p)) == each_on_own_line(pieces),
    decreases pieces.len(),
{
    if pieces.len() > 0 {
        lemma_unfiltered_pieces_output(pieces.drop_last());
    }
}

proof fn lemma_keyword_pieces_output(kw: Seq<u8>, pieces: Seq<Seq<u8>>)
    requires
        kw.len() > 0,
    ensures
        concat_map(pieces, |p: Seq<u8>| split_piece_output(kw, Seq::<u8>::empty(), p))
            == each_on_own_line(pieces.filter(|l: Seq<u8>| contains(l, kw))),
    decreases pieces.len(),
{
    reveal(Seq::filter);
    if pieces.len() > 0 {
        let pred = |l: Seq<u8>| contains(l, kw);
        lemma_keyword_pieces_output(kw, pieces.drop_last());
        let l = pieces.last();
        let rest = pieces.drop_last().filter(pred);
        if contains(l, kw) {
            assert(pieces.filter(pred) == rest.push(l));
            assert(rest.push(l).drop_last() =~= rest);
        } else {
            assert(pieces.filter(pred) == rest);
        }
    }
}

/// Without a keyword or a regular expression, splitting prints every line
/// on a line of its own: the input itself, with a newline added when its
/// last line has none, as the plain routine prints it.
pub proof fn law_split_prints_contents(data: Seq<u8>)
    ensures
        split_output(Seq::<u8>::empty(), Seq::<u8>::empty(), data) == newline_terminated(data),
        split_output(Seq::<u8>::empty(), Seq::<u8>::empty(), data) == simple_output(Seq::<u8>::empty(), Seq::<u8>::empty(), data),
{
    lemma_unfiltered_pieces_output(text_lines(data));
    lemma_text_lines_on_own_lines(data);
    law_simple_prints_contents(data);
}

/// With a keyword that holds no newline and no regular expression,
/// splitting prints what the plain routine prints: the outputs of the
/// lines, in order, are the plain output.
pub proof fn law_split_prints_as_simple(kw: Seq<u8>, data: Seq<u8>)
    requires
        kw.len() > 0,
        newline_free(kw),
    ensures
        split_output(kw, Seq::<u8>::empty(), data) == simple_output(kw, Seq::<u8>::empty(), data),
{
    lemma_keyword_pieces_output(kw, text_lines(data));
    law_simple_keyword_selects_lines(kw, data);
}

/// What is written for one piece.  A regular expression that does not
/// compile selects nothing.
pub fn piece_output(keyword: &[u8], regex: &[u8], line: &[u8]) -> (out: Vec<u8>)
    ensures
        out@ == split_piece_output(keyword@, regex@, line@),
{
    let mut writer = create_buf_write();
    if keyword.is_empty() && regex.is_empty() {
        writer.write_all_with_newline(line);
        return flush(&mut writer);
    }
    if !keyword.is_empty() {
        if let Some(result) = check_keyword(line, keyword) {
            writer.write_all_with_newline(result);
            return flush(&mut writer);
        }
    }
    if !regex.is_empty() {
        if let Ok(Some(results)) = check_regex(line, regex) {
            write_each_on_own_line(&mut writer, &results);
        }
    }
    flush(&mut writer)
}

/// The output of each line of a mapped file (`data` is its content), in
/// the order of the lines.  Standard input cannot be mapped, and an empty
/// file is refused.
pub fn file(keyword: &[u8], regex: &[u8], input: &Input, data: &[u8]) -> (r: Result<Vec<Vec<u8>>, ScanError>)
    ensures
        input is Stdin ==> r == Err::<Vec<Vec<u8>>, ScanError>(ScanError::Read(ReadInputError::CannotMapStdin)),
        input is File && data@.len() == 0 ==> r == Err::<Vec<Vec<u8>>, ScanError>(ScanError::Read(ReadInputError::EmptyFile)),
        input is File && data@.len() > 0 ==> (r matches Ok(outs) && ({
            let lines = text_lines(data@);
            &&& outs@.len() == lines.len()
            &&& forall|k: int| 0 <= k < lines.len() ==> (#[trigger] outs@[k])@ == split_piece_output(keyword@, regex@, lines[k])
        })),
{
    if input.is_stdin() {
        return Err(ScanError::Read(ReadInputError::CannotMapStdin));
    }
    if data.len() == 0 {
        return Err(ScanError::Read(ReadInputError::EmptyFile));
    }
    let spans = line_spans(data);
    let mut outs: Vec<Vec<u8>> = Vec::new();
    let mut k: usize = 0;
    while k < spans.len()
        invariant
            k <= spans@.len(),
            spans@.len() == text_lines(data@).len(),
            forall|j: int| 0 <= j < spans@.len() ==> {
                &&& (#[trigger] spans@[j]).0 <= spans@[j].1 <= data@.len()
                &&& data@.subrange(spans@[j].0 as int, spans@[j].1 as int) == text_lines(data@)[j]
            },
            outs@.len() == k,
            forall|j: int| 0 <= j < k ==> (#[trigger] outs@[j])@ == split_piece_output(keyword@, regex@, text_lines(data@)[j]),
        decreases spans@.len() - k,
    {
        let (s, e) = spans[k];
        let line = vstd::slice::slice_subrange(data, s, e);
        let out = piece_output(keyword, regex, line);
        outs.push(out);
        k = k + 1;
    }
    Ok(outs)
}

} // verus!
