//! The scanner on rayon.  Splitting hands the lines of a mapped file (the
//! pieces between newlines, without the empty piece after a final newline)
//! to rayon's workers one by one; chunking gives each worker one chunk, as
//! the standard-library scanner does.  Either way every line is framed by
//! the prefix and suffix before it is matched, as the sequential scanner
//! does.  The workers finish in no fixed order; `scan` hands the results
//! over in the order of the lines or chunks.
use vstd::prelude::*;
use crate::lines::{line_spans, text_lines, complete_lines, tail_piece, newline_terminated, each_on_own_line, lemma_text_lines_on_own_lines};
use crate::matching::Matcher;
use crate::chunks::chunk_parts;
use super::none_scanner::none_scan_items;
use super::stdthread_scanner::{framed_lines_fn, scan_chunks};
use super::{framed, framed_items, concat3, lemma_unframed, lemma_empty_keyword_items};
use super::{
    Scanner, ScanProperties, ConcurrencyMethod, Out, out_extended, line_items, scan_line,
    lemma_out_extended_trans, lemma_out_extended_refl, lossy_texts, string_views,
};

verus! {

/// The scanner on rayon.
pub struct RayonScanner {
    pub method: ConcurrencyMethod,
}

impl Scanner for RayonScanner {}

/// Splitting finds what the sequential scan finds: the results over the
/// lines of a file, each framed by the prefix and suffix, are the results
/// the sequential scanner gets from the same bytes.
pub proof fn law_split_scan_matches_sequential_scan(scan_properties: ScanProperties, data: Seq<u8>)
    ensures
        framed_items(scan_properties.matcher, scan_properties.prefix@, scan_properties.suffix@, text_lines(data))
            == none_scan_items(scan_properties, data),
{
    let m = scan_properties.matcher;
    let p = scan_properties.prefix@;
    let s = scan_properties.suffix@;
    let cl = complete_lines(data);
    let t = tail_piece(data);
    if t.len() == 0 {
        assert(framed_items(m, p, s, cl) + Seq::<Seq<u8>>::empty() =~= framed_items(m, p, s, cl));
    } else {
        assert(cl.push(t).drop_last() =~= cl);
    }
}

/// Without a keyword, prefix or suffix the split scan prints the file's
/// contents: every line matches, so what is written is the file's bytes,
/// with a newline added when the last line has none.
pub proof fn law_split_scan_without_keyword_prints_contents(k: Vec<u8>, p: Seq<u8>, s: Seq<u8>, data: Seq<u8>)
    requires
        k@.len() == 0,
        p.len() == 0,
        s.len() == 0,
    ensures
        each_on_own_line(framed_items(Matcher::Keyword(k), p, s, text_lines(data))) == newline_terminated(data),
{
    lemma_unframed(Matcher::Keyword(k), p, s, text_lines(data));
    lemma_empty_keyword_items(k, text_lines(data));
    lemma_text_lines_on_own_lines(data);
}

/// Scans the lines of a mapped file (`data` is its content) one by one,
/// each framed by the prefix and suffix: the results of every line, in
/// order.
pub fn scan_lines<S: Scanner>(scanner: &S, scan_properties: &ScanProperties, data: &[u8]) -> (r: (Option<Vec<String>>, Vec<u8>))
    ensures
        ({
            let items = framed_items(scan_properties.matcher, scan_properties.prefix@, scan_properties.suffix@, text_lines(data@));
            &&& scan_properties.get ==> (r.0 matches Some(v) && string_views(v@) == lossy_texts(items))
                && r.1@ == Seq::<u8>::empty()
            &&& !scan_properties.get ==> r.0 is None && r.1@ == each_on_own_line(items)
        }),
{
    let mut out = Out::new(scan_properties.get);
    let ghost start = out;
    let ghost m = scan_properties.matcher;
    let ghost p = scan_properties.prefix@;
    let ghost sf = scan_properties.suffix@;
    let spans = line_spans(data);
    let ghost lines = text_lines(data@);
    proof {
        lemma_out_extended_refl(out);
        assert(lines.take(0) =~= Seq::<Seq<u8>>::empty());
    }
    let mut k: usize = 0;
    while k < spans.len()
        invariant
            k <= spans@.len(),
            m == scan_properties.matcher,
            p == scan_properties.prefix@,
            sf == scan_properties.suffix@,
            lines == text_lines(data@),
            spans@.len() == lines.len(),
            forall|j: int| 0 <= j < spans@.len() ==> {
                &&& (#[trigger] spans@[j]).0 <= spans@[j].1 <= data@.len()
                &&& data@.subrange(spans@[j].0 as int, spans@[j].1 as int) == lines[j]
            },
            out_extended(start, out, framed_items(m, p, sf, lines.take(k as int))),
        decreases spans@.len() - k,
    {
        let ghost mid = out;
        let (s, e) = spans[k];
        let piece = vstd::slice::slice_subrange(data, s, e);
        scan_framed_line(scanner, scan_properties, piece, &mut out);
        proof {
            assert(lines.take(k + 1).drop_last() =~= lines.take(k as int));
            assert(lines.take(k + 1).last() == lines[k as int]);
            lemma_out_extended_trans(start, mid, out, framed_items(m, p, sf, lines.take(k as int)),
                line_items(m, framed(p, lines[k as int], sf)));
        }
        k = k + 1;
    }
    proof {
        assert(lines.take(spans@.len() as int) =~= lines);
        let items = framed_items(m, p, sf, lines);
        if scan_properties.get {
            assert(start.results_view() + lossy_texts(items) =~= lossy_texts(items));
        } else {
            assert(start.written() + each_on_own_line(items) =~= each_on_own_line(items));
        }
    }
    let written = out.take_written();
    (out.get_results(), written)
}

/// Frames one line by the prefix and suffix, matches it, and hands its
/// results to `out` (the work of one item when splitting).
pub fn scan_framed_line<S: Scanner>(scanner: &S, scan_properties: &ScanProperties, piece: &[u8], out: &mut Out)
    ensures
        out_extended(*old(out), *final(out),
            line_items(scan_properties.matcher, framed(scan_properties.prefix@, piece@, scan_properties.suffix@))),
{
    let line = concat3(scan_properties.prefix, piece, scan_properties.suffix);
    scan_line(scanner, scan_properties, line.as_slice(), out);
}

impl RayonScanner {
    /// Frames one line, matches it and hands its results to `out` (the
    /// work of one worker item when splitting).
    pub fn scan_piece(&self, scan_properties: &ScanProperties, piece: &[u8], out: &mut Out)
        ensures
            out_extended(*old(out), *final(out),
                line_items(scan_properties.matcher, framed(scan_properties.prefix@, piece@, scan_properties.suffix@))),
    {
        scan_framed_line(self, scan_properties, piece, out);
    }

    /// Scans a mapped file (`data` is its content), every line framed by the
    /// prefix and suffix: when splitting, the results of every line, in
    /// order; when chunking, those of each of the `num_workers` chunks, in
    /// order.  Only a file can
    /// be mapped, and the sequential method is not this scanner's.
    pub fn scan(&self, scan_properties: &ScanProperties, data: &[u8], num_workers: usize) -> (r: (Option<Vec<String>>, Vec<u8>))
        requires
            self.method != ConcurrencyMethod::Sequential,
            scan_properties.input is File,
            self.method == ConcurrencyMethod::Chunk ==> num_workers > 0,
        ensures
            ({
                let items = if self.method == ConcurrencyMethod::Split {
                    framed_items(scan_properties.matcher, scan_properties.prefix@, scan_properties.suffix@, text_lines(data@))
                } else {
                    chunk_parts(data@, num_workers as int, num_workers as int,
                        framed_lines_fn(scan_properties.matcher, scan_properties.prefix@, scan_properties.suffix@))
                };
                &&& scan_properties.get ==> (r.0 matches Some(v) && string_views(v@) == lossy_texts(items))
                    && r.1@ == Seq::<u8>::empty()
                &&& !scan_properties.get ==> r.0 is None && r.1@ == each_on_own_line(items)
            }),
    {
        match self.method {
            ConcurrencyMethod::Split => scan_lines(self, scan_properties, data),
            _ => scan_chunks(self, scan_properties, data, num_workers),
        }
    }
}

} // verus!
