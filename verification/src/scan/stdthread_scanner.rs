//! The scanner on standard-library threads.  Chunking cuts a mapped file
//! into one chunk per thread and scans each chunk's lines, framed by the
//! prefix and suffix; splitting scans the lines one by one, framed too, as
//! the rayon scanner does.  The threads finish in no fixed order; `scan` hands the
//! results over in the order of the chunks or lines.
use vstd::prelude::*;
use crate::search::{NEWLINE, memchr_byte};
use crate::lines::{
    complete_lines, tail_piece, text_lines, is_line_start, each_on_own_line, lemma_complete_lines_step_from,
    lemma_empty_region, lemma_found_newline, lemma_lines_at_cut, lemma_tail_after_line_start,
};
use crate::chunks::{chunk_bounds, chunk_part, chunk_parts, adds_up_over_lines, law_chunks_cover, law_chunks_hold_whole_lines};
use crate::matching::Matcher;
use super::none_scanner::none_scan_items;
use super::rayon_scanner::{scan_lines, scan_framed_line};
use super::{
    Scanner, ScanProperties, ConcurrencyMethod, Out, out_extended, framed_items, framed, line_items,
    concat3, scan_line, lemma_out_extended_trans, lemma_out_extended_refl, lemma_framed_items_append, lossy_texts,
    string_views,
};

verus! {

/// The scanner on standard-library threads.
pub struct StdThreadScanner {
    pub method: ConcurrencyMethod,
}

impl Scanner for StdThreadScanner {}

/// Scanning the lines of a text, framed, as a function of the text.
pub open spec fn framed_lines_fn(m: Matcher, p: Seq<u8>, s: Seq<u8>) -> spec_fn(Seq<u8>) -> Seq<Seq<u8>> {
    |x: Seq<u8>| framed_items(m, p, s, text_lines(x))
}

/// The results worker `id` of `n` finds: those of the lines of its chunk.
pub open spec fn chunk_worker_items(scan_properties: ScanProperties, data: Seq<u8>, n: int, id: int) -> Seq<Seq<u8>> {
    chunk_part(data, n, id, framed_lines_fn(scan_properties.matcher, scan_properties.prefix@, scan_properties.suffix@))
}

/// The lines of a text cut at a line start: those before the cut, then
/// those after it.
proof fn lemma_text_lines_at_cut(x: Seq<u8>, i: int)
    requires
        0 <= i <= x.len(),
        is_line_start(x, i),
    ensures
        text_lines(x) == text_lines(x.take(i)) + text_lines(x.skip(i)),
{
    lemma_lines_at_cut(x, i);
    let a = complete_lines(x.take(i));
    let b = complete_lines(x.skip(i));
    let t = tail_piece(x.skip(i));
    if t.len() > 0 {
        assert((a + b).push(t) =~= a + b.push(t));
    }
}

/// Scanning lines adds up over lines.
pub proof fn lemma_framed_lines_add_up(m: Matcher, p: Seq<u8>, s: Seq<u8>)
    ensures
        adds_up_over_lines(framed_lines_fn(m, p, s)),
{
    let f = framed_lines_fn(m, p, s);
    crate::lines::law_split_pieces_shape(Seq::<u8>::empty());
    assert(text_lines(Seq::<u8>::empty()) =~= Seq::<Seq<u8>>::empty());
    assert(f(Seq::<u8>::empty()) =~= Seq::<Seq<u8>>::empty());
    assert forall|x: Seq<u8>, i: int| 0 <= i <= x.len() && #[trigger] is_line_start(x, i)
        implies f(x) == f(x.take(i)) + f(x.skip(i)) by {
        lemma_text_lines_at_cut(x, i);
        lemma_framed_items_append(m, p, s, text_lines(x.take(i)), text_lines(x.skip(i)));
    }
}

/// Chunking finds what scanning the lines in order finds: whatever the
/// number of workers, their results, in order, are the results of every
/// line of the data, framed: those of the sequential scanner.
pub proof fn law_chunk_scan_matches_sequential_scan(scan_properties: ScanProperties, data: Seq<u8>, n: int)
    requires
        n > 0,
    ensures
        chunk_parts(data, n, n, framed_lines_fn(scan_properties.matcher, scan_properties.prefix@, scan_properties.suffix@))
            == none_scan_items(scan_properties, data),
{
    let m = scan_properties.matcher;
    let p = scan_properties.prefix@;
    let s = scan_properties.suffix@;
    lemma_framed_lines_add_up(m, p, s);
    law_chunks_cover(data, n, framed_lines_fn(m, p, s));
    let cl = complete_lines(data);
    let t = tail_piece(data);
    if t.len() > 0 {
        assert(cl.push(t).drop_last() =~= cl);
    } else {
        assert(framed_items(m, p, s, cl) + Seq::<Seq<u8>>::empty() =~= framed_items(m, p, s, cl));
    }
}

/// Scans the lines of `data[b..e]`, framed, as one worker does.
pub fn scan_region<S: Scanner>(scanner: &S, scan_properties: &ScanProperties, data: &[u8], b: usize, e: usize, out: &mut Out)
    requires
        b <= e <= data@.len(),
        b == 0 || data@[b - 1] == NEWLINE,
    ensures
        out_extended(*old(out), *final(out), framed_items(
            scan_properties.matcher, scan_properties.prefix@, scan_properties.suffix@,
            text_lines(data@.subrange(b as int, e as int)))),
{
    let ghost start = *out;
    let ghost m = scan_properties.matcher;
    let ghost p = scan_properties.prefix@;
    let ghost s = scan_properties.suffix@;
    let ghost x = data@.subrange(b as int, e as int);
    let mut begin: usize = b;
    proof {
        lemma_empty_region(data@, b as int);
        lemma_out_extended_refl(*out);
    }
    loop
        invariant_except_break
            b <= begin <= e <= data@.len(),
            x == data@.subrange(b as int, e as int),
            begin == b || data@[begin - 1] == NEWLINE,
            m == scan_properties.matcher,
            p == scan_properties.prefix@,
            s == scan_properties.suffix@,
            out_extended(start, *out, framed_items(m, p, s, complete_lines(data@.subrange(b as int, begin as int)))),
        ensures
            out_extended(start, *out, framed_items(m, p, s, text_lines(x))),
        decreases e - begin,
    {
        let ghost mid = *out;
        let ghost done = complete_lines(data@.subrange(b as int, begin as int));
        let rest = vstd::slice::slice_subrange(data, begin, e);
        match memchr_byte(NEWLINE, rest) {
            Some(size) => {
                let k = begin + size;
                proof {
                    lemma_found_newline(data@, begin as int, e as int, size as int);
                    lemma_complete_lines_step_from(data@, b as int, begin as int, k as int);
                }
                let piece = vstd::slice::slice_subrange(data, begin, k);
                let line = concat3(scan_properties.prefix, piece, scan_properties.suffix);
                scan_line(scanner, scan_properties, line.as_slice(), out);
                proof {
                    assert(done.push(piece@).drop_last() =~= done);
                    lemma_out_extended_trans(start, mid, *out, framed_items(m, p, s, done), line_items(m, framed(p, piece@, s)));
                }
                begin = k + 1;
            },
            None => {
                proof {
                    let rel = begin - b;
                    if begin > b {
                        assert(x[rel - 1] == data@[begin - 1]);
                    }
                    assert(x.skip(rel) =~= rest@);
                    assert(x.take(rel) =~= data@.subrange(b as int, begin as int));
                    lemma_tail_after_line_start(x, rel);
                }
                if !rest.is_empty() {
                    let line = concat3(scan_properties.prefix, rest, scan_properties.suffix);
                    scan_line(scanner, scan_properties, line.as_slice(), out);
                    proof {
                        assert(done.push(rest@).drop_last() =~= done);
                        lemma_out_extended_trans(start, mid, *out, framed_items(m, p, s, done), line_items(m, framed(p, rest@, s)));
                    }
                } else {
                    proof {
                        assert(text_lines(x) == done);
                    }
                }
                break;
            },
        }
    }
}

/// Scans worker `id`'s chunk of a mapped file (`data` is its content): the
/// work one thread does when chunking.
pub fn scan_chunk_worker<S: Scanner>(scanner: &S, scan_properties: &ScanProperties, data: &[u8], num_workers: usize, id: usize, out: &mut Out)
    requires
        id < num_workers,
    ensures
        out_extended(*old(out), *final(out), chunk_worker_items(*scan_properties, data@, num_workers as int, id as int)),
{
    proof {
        law_chunks_hold_whole_lines(data@, num_workers as int, id as int);
    }
    match chunk_bounds(data, num_workers, id) {
        Some((b, e)) => {
            if b < e {
                scan_region(scanner, scan_properties, data, b, e, out);
            } else {
                proof {
                    lemma_out_extended_refl(*out);
                }
            }
        },
        None => {
            proof {
                lemma_out_extended_refl(*out);
            }
        },
    }
}

/// Scans a mapped file (`data` is its content) in `num_workers` chunks:
/// the results of each chunk, in order.
pub fn scan_chunks<S: Scanner>(scanner: &S, scan_properties: &ScanProperties, data: &[u8], num_workers: usize) -> (r: (Option<Vec<String>>, Vec<u8>))
    requires
        num_workers > 0,
    ensures
        ({
            let items = chunk_parts(data@, num_workers as int, num_workers as int,
                framed_lines_fn(scan_properties.matcher, scan_properties.prefix@, scan_properties.suffix@));
            &&& scan_properties.get ==> (r.0 matches Some(v) && string_views(v@) == lossy_texts(items))
                && r.1@ == Seq::<u8>::empty()
            &&& !scan_properties.get ==> r.0 is None && r.1@ == each_on_own_line(items)
        }),
{
    let mut out = Out::new(scan_properties.get);
    let ghost start = out;
    let ghost f = framed_lines_fn(scan_properties.matcher, scan_properties.prefix@, scan_properties.suffix@);
    proof {
        lemma_out_extended_refl(out);
    }
    let mut id: usize = 0;
    while id < num_workers
        invariant
            id <= num_workers,
            f == framed_lines_fn(scan_properties.matcher, scan_properties.prefix@, scan_properties.suffix@),
            out_extended(start, out, chunk_parts(data@, num_workers as int, id as int, f)),
        decreases num_workers - id,
    {
        let ghost mid = out;
        scan_chunk_worker(scanner, scan_properties, data, num_workers, id, &mut out);
        proof {
            lemma_out_extended_trans(start, mid, out, chunk_parts(data@, num_workers as int, id as int, f),
                chunk_part(data@, num_workers as int, id as int, f));
        }
        id = id + 1;
    }
    proof {
        let items = chunk_parts(data@, num_workers as int, num_workers as int, f);
        if scan_properties.get {
            assert(start.results_view() + lossy_texts(items) =~= lossy_texts(items));
        } else {
            assert(start.written() + each_on_own_line(items) =~= each_on_own_line(items));
        }
    }
    let written = out.take_written();
    (out.get_results(), written)
}

impl StdThreadScanner {
    /// Frames one line, matches it and hands its results to `out` (the
    /// work of one thread's item when splitting).
    pub fn scan_piece(&self, scan_properties: &ScanProperties, piece: &[u8], out: &mut Out)
        ensures
            out_extended(*old(out), *final(out),
                line_items(scan_properties.matcher, framed(scan_properties.prefix@, piece@, scan_properties.suffix@))),
    {
        scan_framed_line(self, scan_properties, piece, out);
    }

    /// Scans the lines of `data[b..e]` as one worker does.
    pub fn scan_worker(&self, scan_properties: &ScanProperties, data: &[u8], b: usize, e: usize, out: &mut Out)
        requires
            b <= e <= data@.len(),
            b == 0 || data@[b - 1] == NEWLINE,
        ensures
            out_extended(*old(out), *final(out), framed_items(
                scan_properties.matcher, scan_properties.prefix@, scan_properties.suffix@,
                text_lines(data@.subrange(b as int, e as int)))),
    {
        scan_region(self, scan_properties, data, b, e, out);
    }

    /// Scans a mapped file (`data` is its content), every line framed by the
    /// prefix and suffix: when chunking, the results of each of the
    /// `num_threads` chunks, in order; when splitting, those of every line,
    /// in order.  Only a file
    /// can be mapped, and the sequential method is not this scanner's.
    pub fn scan(&self, scan_properties: &ScanProperties, data: &[u8], num_threads: usize) -> (r: (Option<Vec<String>>, Vec<u8>))
        requires
            self.method != ConcurrencyMethod::Sequential,
            scan_properties.input is File,
            self.method == ConcurrencyMethod::Chunk ==> num_threads > 0,
        ensures
            ({
                let items = if self.method == ConcurrencyMethod::Split {
                    framed_items(scan_properties.matcher, scan_properties.prefix@, scan_properties.suffix@, text_lines(data@))
                } else {
                    chunk_parts(data@, num_threads as int, num_threads as int,
                        framed_lines_fn(scan_properties.matcher, scan_properties.prefix@, scan_properties.suffix@))
                };
                &&& scan_properties.get ==> (r.0 matches Some(v) && string_views(v@) == lossy_texts(items))
                    && r.1@ == Seq::<u8>::empty()
                &&& !scan_properties.get ==> r.0 is None && r.1@ == each_on_own_line(items)
            }),
    {
        match self.method {
            ConcurrencyMethod::Split => scan_lines(self, scan_properties, data),
            _ => scan_chunks(self, scan_properties, data, num_threads),
        }
    }
}

} // verus!
