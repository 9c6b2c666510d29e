//! The printing routines: each splits its input into lines and writes the
//! lines, or the parts of lines, that the keyword and regular expression
//! select.
//!
//! For a line the routines write, in this order: the line when neither a
//! keyword nor a regular expression is given; the line when the keyword is
//! given and occurs in it; each part the regular expression matches, on a
//! line of its own.  A complete line is checked and written with its
//! newline; an unterminated last line is checked without one and written
//! with one added.
use vstd::prelude::*;
use crate::search::{NEWLINE, contains};
use crate::lines::{
    concat_map, complete_lines, tail_piece, each_on_own_line, text_lines, newline_terminated, newline_free,
    lemma_text_lines_on_own_lines, lemma_contains_with_newline, };
use crate::matching::{RegexError, regex_compiles, regex_items, utf8_lossy};
use crate::common::{check_keyword, check_regex, regex_pattern, write_all};
use crate::utils::write_util::BufWrite;
use crate::input::Input;
use crate::scan::{ConcurrencyMethod, ConcurrencyProvider};
use crate::utils::stdout_util::{BufWriterImpl, write_each_on_own_line};

pub mod simple;
pub mod split;
pub mod chunk;

verus! {

/// Which printing routine `input` runs.
#[derive(Debug, Clone, Copy, PartialEq, Eq, Structural)]
pub enum PrintRoutine {
    /// `simple::stdin_feed` for each read, then `simple::stdin_finish`.
    SimpleStdin,
    /// `simple::file` on the mapped file.
    SimpleFile,
    /// `split::rayon::file` on the mapped file.
    SplitRayon,
    /// The lines of the mapped file, as `split::rayon::file` gives them,
    /// on standard-library threads.
    SplitStdThread,
    /// `chunk::rayon::file` on the mapped file.
    ChunkRayon,
    /// `chunk::stdthread::file` on the mapped file.
    ChunkStdThread,
}

/// Chooses the printing routine: standard input is read as a stream; a
/// file is mapped and printed plainly (no concurrency), split into lines or
/// in chunks (on either provider).  `stable` is not used.
pub fn input(method: ConcurrencyMethod, provider: ConcurrencyProvider, source: &Input, stable: bool) -> (r: PrintRoutine)
    ensures
        source is Stdin ==> r == PrintRoutine::SimpleStdin,
        source is File && method == ConcurrencyMethod::Sequential ==> r == PrintRoutine::SimpleFile,
        source is File && method == ConcurrencyMethod::Split && provider == ConcurrencyProvider::Rayon ==> r == PrintRoutine::SplitRayon,
        source is File && method == ConcurrencyMethod::Split && provider == ConcurrencyProvider::StdThread ==> r == PrintRoutine::SplitStdThread,
        source is File && method == ConcurrencyMethod::Chunk && provider == ConcurrencyProvider::Rayon ==> r == PrintRoutine::ChunkRayon,
        source is File && method == ConcurrencyMethod::Chunk && provider == ConcurrencyProvider::StdThread ==> r == PrintRoutine::ChunkStdThread,
{
    if source.is_stdin() {
        return PrintRoutine::SimpleStdin;
    }
    match method {
        ConcurrencyMethod::Sequential => PrintRoutine::SimpleFile,
        ConcurrencyMethod::Split => match provider {
            ConcurrencyProvider::Rayon => PrintRoutine::SplitRayon,
            ConcurrencyProvider::StdThread => PrintRoutine::SplitStdThread,
        },
        ConcurrencyMethod::Chunk => match provider {
            ConcurrencyProvider::Rayon => PrintRoutine::ChunkRayon,
            ConcurrencyProvider::StdThread => PrintRoutine::ChunkStdThread,
        },
    }
}

/// A regular expression is given and compiles.
pub open spec fn regex_valid(re: Seq<u8>) -> bool {
    re.len() > 0 && regex_compiles(regex_pattern(re))
}

/// No regular expression is given, or it compiles.
pub open spec fn regex_usable(re: Seq<u8>) -> bool {
    re.len() == 0 || regex_compiles(regex_pattern(re))
}

/// The line as written: `checked` is the text the keyword is looked for
/// in, `shown` the text written when it is selected.
pub open spec fn shown_part(kw: Seq<u8>, re: Seq<u8>, checked: Seq<u8>, shown: Seq<u8>) -> Seq<u8> {
    (if kw.len() == 0 && re.len() == 0 { shown } else { Seq::<u8>::empty() })
    + (if kw.len() > 0 && contains(checked, kw) { shown } else { Seq::<u8>::empty() })
}

/// The parts of `line` that a valid regular expression matches, one per line.
pub open spec fn regex_part(re: Seq<u8>, line: Seq<u8>) -> Seq<u8> {
    if regex_valid(re) {
        each_on_own_line(regex_items(regex_pattern(re), line))
    } else {
        Seq::<u8>::empty()
    }
}

/// The output for a complete line (given without its newline).
pub open spec fn simple_line_output(kw: Seq<u8>, re: Seq<u8>, line: Seq<u8>) -> Seq<u8> {
    shown_part(kw, re, line.push(NEWLINE), line.push(NEWLINE)) + regex_part(re, line.push(NEWLINE))
}

/// The output for a run of complete lines.
pub open spec fn simple_lines_output(kw: Seq<u8>, re: Seq<u8>, lines: Seq<Seq<u8>>) -> Seq<u8> {
    concat_map(lines, |l: Seq<u8>| simple_line_output(kw, re, l))
}

/// Printing one more complete line appends that line's output.
pub proof fn lemma_lines_output_push(kw: Seq<u8>, re: Seq<u8>, lines: Seq<Seq<u8>>, l: Seq<u8>)
    ensures
        simple_lines_output(kw, re, lines.push(l)) == simple_lines_output(kw, re, lines) + simple_line_output(kw, re, l),
{
    assert(lines.push(l).drop_last() =~= lines);
}

/// The output for the unterminated last line (nothing when it is empty).
pub open spec fn simple_tail_output(kw: Seq<u8>, re: Seq<u8>, t: Seq<u8>) -> Seq<u8> {
    if t.len() == 0 {
        Seq::<u8>::empty()
    } else {
        shown_part(kw, re, t, t.push(NEWLINE)) + regex_part(re, t)
    }
}

/// The whole output for `data` when the regular expression is usable.
pub open spec fn simple_output(kw: Seq<u8>, re: Seq<u8>, data: Seq<u8>) -> Seq<u8> {
    simple_lines_output(kw, re, complete_lines(data)) + simple_tail_output(kw, re, tail_piece(data))
}

/// What is written before a regular expression that does not compile stops
/// the routine: the keyword part of the first line.
pub open spec fn simple_failure_output(kw: Seq<u8>, re: Seq<u8>, data: Seq<u8>) -> Seq<u8> {
    if complete_lines(data).len() > 0 {
        let seg = complete_lines(data)[0].push(NEWLINE);
        shown_part(kw, re, seg, seg)
    } else {
        let t = tail_piece(data);
        shown_part(kw, re, t, t.push(NEWLINE))
    }
}

/// The lines of `data` that contain the keyword, in order.
pub open spec fn keyword_lines(kw: Seq<u8>, data: Seq<u8>) -> Seq<Seq<u8>> {
    text_lines(data).filter(|l: Seq<u8>| contains(l, kw))
}

proof fn lemma_unfiltered_lines_output(lines: Seq<Seq<u8>>)
    ensures
        simple_lines_output(Seq::<u8>::empty(), Seq::<u8>::empty(), lines) == each_on_own_line(lines),
    decreases lines.len(),
{
    if lines.len() > 0 {
        lemma_unfiltered_lines_output(lines.drop_last());
        let l = lines.last();
        assert(simple_line_output(Seq::<u8>::empty(), Seq::<u8>::empty(), l) =~= l.push(NEWLINE));
    }
}

proof fn lemma_keyword_lines_output(kw: Seq<u8>, lines: Seq<Seq<u8>>)
    requires
        kw.len() > 0,
        newline_free(kw),
    ensures
        simple_lines_output(kw, Seq::<u8>::empty(), lines) == each_on_own_line(lines.filter(|l: Seq<u8>| contains(l, kw))),
    decreases lines.len(),
{
    reveal(Seq::filter);
    if lines.len() > 0 {
        let pred = |l: Seq<u8>| contains(l, kw);
        lemma_keyword_lines_output(kw, lines.drop_last());
        let l = lines.last();
        lemma_contains_with_newline(l, kw);
        let rest = lines.drop_last().filter(pred);
        if contains(l, kw) {
            assert(simple_line_output(kw, Seq::<u8>::empty(), l) =~= l.push(NEWLINE));
            assert(lines.filter(pred) == rest.push(l));
            assert(each_on_own_line(rest.push(l)) == each_on_own_line(rest) + l.push(NEWLINE)) by {
                assert(rest.push(l).drop_last() =~= rest);
            }
        } else {
            assert(simple_line_output(kw, Seq::<u8>::empty(), l) =~= Seq::<u8>::empty());
            assert(lines.filter(pred) == rest);
        }
    }
}

/// Without a keyword or a regular expression the plain routine prints its
/// input: each line on a line of its own, which is the input itself with a
/// newline added when its last line has none.
pub proof fn law_simple_prints_contents(data: Seq<u8>)
    ensures
        simple_output(Seq::<u8>::empty(), Seq::<u8>::empty(), data) == each_on_own_line(text_lines(data)),
        simple_output(Seq::<u8>::empty(), Seq::<u8>::empty(), data) == newline_terminated(data),
{
    let e = Seq::<u8>::empty();
    let cl = complete_lines(data);
    let t = tail_piece(data);
    lemma_unfiltered_lines_output(cl);
    lemma_text_lines_on_own_lines(data);
    if t.len() > 0 {
        assert(simple_tail_output(e, e, t) =~= t.push(NEWLINE));
        assert(cl.push(t).drop_last() =~= cl);
    } else {
        assert(simple_output(e, e, data) =~= each_on_own_line(cl));
    }
}

/// With a keyword that holds no newline and no regular expression, the
/// plain routine prints exactly the lines that contain the keyword, in
/// order, each on a line of its own.
pub proof fn law_simple_keyword_selects_lines(kw: Seq<u8>, data: Seq<u8>)
    requires
        kw.len() > 0,
        newline_free(kw),
    ensures
        simple_output(kw, Seq::<u8>::empty(), data) == each_on_own_line(keyword_lines(kw, data)),
{
    reveal(Seq::filter);
    let e = Seq::<u8>::empty();
    let pred = |l: Seq<u8>| contains(l, kw);
    let cl = complete_lines(data);
    let t = tail_piece(data);
    lemma_keyword_lines_output(kw, cl);
    if t.len() > 0 {
        assert(cl.push(t).drop_last() =~= cl);
        assert(cl.push(t).last() == t);
        if contains(t, kw) {
            assert(simple_tail_output(kw, e, t) =~= t.push(NEWLINE));
            assert(text_lines(data).filter(pred) == cl.filter(pred).push(t));
            assert(cl.filter(pred).push(t).drop_last() =~= cl.filter(pred));
        } else {
            assert(simple_tail_output(kw, e, t) =~= Seq::<u8>::empty());
            assert(text_lines(data).filter(pred) == cl.filter(pred));
            assert(simple_output(kw, e, data) =~= simple_lines_output(kw, e, cl));
        }
    } else {
        assert(simple_output(kw, e, data) =~= simple_lines_output(kw, e, cl));
    }
}

/// A regular expression given as bytes that compiles (from the text of
/// the bytes) adds every part of the line it matches, in order, each
/// followed by a newline, whether the line is complete or the unterminated
/// last one; one that is not given or does not compile adds nothing.
pub proof fn law_regex_prints_every_match(re: Seq<u8>, line: Seq<u8>)
    ensures
        re.len() > 0 && regex_compiles(utf8_lossy(re))
            ==> regex_part(re, line) == each_on_own_line(regex_items(utf8_lossy(re), line)),
        !(re.len() > 0 && regex_compiles(utf8_lossy(re))) ==> regex_part(re, line) == Seq::<u8>::empty(),
{
}

proof fn lemma_regex_lines_output(re: Seq<u8>, lines: Seq<Seq<u8>>)
    requires
        re.len() > 0,
        regex_compiles(utf8_lossy(re)),
    ensures
        simple_lines_output(Seq::<u8>::empty(), re, lines)
            == concat_map(lines, |l: Seq<u8>| each_on_own_line(regex_items(utf8_lossy(re), l.push(NEWLINE)))),
    decreases lines.len(),
{
    if lines.len() > 0 {
        lemma_regex_lines_output(re, lines.drop_last());
        let l = lines.last();
        assert(simple_line_output(Seq::<u8>::empty(), re, l)
            =~= each_on_own_line(regex_items(utf8_lossy(re), l.push(NEWLINE))));
    }
}

/// With a regular expression that compiles and no keyword, the plain
/// routine prints every part of every line that the expression matches, in
/// order, each on a line of its own: a complete line is matched with its
/// newline, the unterminated last line as it is.
pub proof fn law_simple_regex_prints_every_match(re: Seq<u8>, data: Seq<u8>)
    requires
        re.len() > 0,
        regex_compiles(utf8_lossy(re)),
    ensures
        simple_output(Seq::<u8>::empty(), re, data)
            == concat_map(complete_lines(data), |l: Seq<u8>| each_on_own_line(regex_items(utf8_lossy(re), l.push(NEWLINE))))
            + if tail_piece(data).len() > 0 {
                each_on_own_line(regex_items(utf8_lossy(re), tail_piece(data)))
            } else {
                Seq::<u8>::empty()
            },
{
    lemma_regex_lines_output(re, complete_lines(data));
    let t = tail_piece(data);
    if t.len() > 0 {
        assert(simple_tail_output(Seq::<u8>::empty(), re, t) =~= each_on_own_line(regex_items(utf8_lossy(re), t)));
    }
}

/// What the plain routine prints for one line (`checked` is the line as
/// matched: a complete line with its newline, the unterminated last line as
/// it is; `shown` is the line as written, with its newline): the line when
/// neither keyword nor regular expression is given; the line when the
/// keyword is given and occurs in it as a run of consecutive bytes; and,
/// after that, every part a compiling regular expression matches in it, in
/// order, each followed by a newline.
pub proof fn law_plain_line_output(kw: Seq<u8>, re: Seq<u8>, checked: Seq<u8>, shown: Seq<u8>)
    ensures
        shown_part(kw, re, checked, shown) + regex_part(re, checked)
            == (if kw.len() == 0 && re.len() == 0 { shown } else { Seq::<u8>::empty() })
            + (if kw.len() > 0 && (exists|i: int| 0 <= i && i + kw.len() <= checked.len()
                    && #[trigger] checked.subrange(i, i + kw.len()) == kw) {
                shown
            } else {
                Seq::<u8>::empty()
            })
            + (if re.len() > 0 && regex_compiles(utf8_lossy(re)) {
                each_on_own_line(regex_items(utf8_lossy(re), checked))
            } else {
                Seq::<u8>::empty()
            }),
{
    if exists|i: int| 0 <= i && i + kw.len() <= checked.len() && #[trigger] checked.subrange(i, i + kw.len()) == kw {
        let i = choose|i: int| 0 <= i && i + kw.len() <= checked.len() && #[trigger] checked.subrange(i, i + kw.len()) == kw;
        assert(crate::search::occurs_at(checked, kw, i));
    }
}

/// A complete line is matched with its newline and written with it; the
/// unterminated last line is matched as it is and written with a newline
/// added.
pub proof fn law_plain_lines_matched_and_shown(kw: Seq<u8>, re: Seq<u8>, l: Seq<u8>)
    ensures
        simple_line_output(kw, re, l)
            == shown_part(kw, re, l.push(NEWLINE), l.push(NEWLINE)) + regex_part(re, l.push(NEWLINE)),
        l.len() > 0 ==> simple_tail_output(kw, re, l) == shown_part(kw, re, l, l.push(NEWLINE)) + regex_part(re, l),
        simple_tail_output(kw, re, Seq::<u8>::empty()) == Seq::<u8>::empty(),
{
}

/// The text written for `line`: with a newline added or as it is.
pub open spec fn shown_text(line: Seq<u8>, add_newline: bool) -> Seq<u8> {
    if add_newline { line.push(NEWLINE) } else { line }
}

/// Writes `line`, or its parts, as the printing routines do; fails when the
/// regular expression does not compile, after writing the keyword part.
pub fn emit_line(writer: &mut BufWrite, keyword: &[u8], regex: &[u8], line: &[u8], add_newline: bool) -> (r: Result<(), RegexError>)
    ensures
        r is Ok <==> regex_usable(regex@),
        r is Ok ==> final(writer)@ == old(writer)@ + shown_part(keyword@, regex@, line@, shown_text(line@, add_newline)) + regex_part(regex@, line@),
        r is Err ==> final(writer)@ == old(writer)@ + shown_part(keyword@, regex@, line@, shown_text(line@, add_newline)),
        r matches Err(e) ==> e == RegexError::Invalid,
{
    let ghost start = writer@;
    if keyword.is_empty() && regex.is_empty() {
        if add_newline {
            writer.write_all_with_newline(line);
        } else {
            write_all(writer, line);
        }
    }
    proof {
        assert(writer@ =~= start + (if keyword@.len() == 0 && regex@.len() == 0 { shown_text(line@, add_newline) } else { Seq::<u8>::empty() }));
    }
    let ghost mid = writer@;
    if !keyword.is_empty() {
        if let Some(result) = check_keyword(line, keyword) {
            if add_newline {
                writer.write_all_with_newline(result);
            } else {
                write_all(writer, result);
            }
        }
    }
    proof {
        assert(writer@ =~= start + shown_part(keyword@, regex@, line@, shown_text(line@, add_newline)));
    }
    if !regex.is_empty() {
        match check_regex(line, regex) {
            Err(e) => {
                return Err(e);
            },
            Ok(found) => {
                if let Some(results) = found {
                    write_each_on_own_line(writer, &results);
                }
            },
        }
    }
    Ok(())
}

} // verus!
