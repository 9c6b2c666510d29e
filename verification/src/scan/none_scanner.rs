//! The scanner without concurrency: it reads its input (standard input) a
//! buffer at a time and handles each line as soon as it is complete.
use vstd::prelude::*;
use crate::lines::{complete_lines, tail_piece, split_pieces, join_lines, each_on_own_line, law_split_pieces_shape, lemma_each_on_own_line_join};
use crate::search::NEWLINE;
use crate::matching::Matcher;
use crate::matching::MatchStrategyIterator;
use crate::stream::{LineStream, vec_views, fed_lines, joined, law_stream_matches_whole_input};
use super::{
    Scanner, ScanProperties, Out, out_extended, framed_items, framed, line_items, concat3, scan_line,
    lemma_out_extended_trans, lemma_out_extended_refl, lemma_framed_items_append, lossy_texts,
    string_views, lemma_unframed, lemma_empty_keyword_items, plain_items,
};

verus! {

/// The scanner without concurrency.
pub struct NoneScanner {}

impl Scanner for NoneScanner {
    fn match_line<'a>(&self, scan_properties: &'a ScanProperties<'a>, line: &'a [u8]) -> (r: Option<MatchStrategyIterator<'a>>) {
        scan_properties.matcher.best_match(line)
    }
}

/// The results of scanning all of `data`: those of each complete line, then
/// those of a non-empty tail, every line framed by the prefix and suffix.
pub open spec fn none_scan_items(scan_properties: ScanProperties, data: Seq<u8>) -> Seq<Seq<u8>> {
    let m = scan_properties.matcher;
    let p = scan_properties.prefix@;
    let s = scan_properties.suffix@;
    let t = tail_piece(data);
    framed_items(m, p, s, complete_lines(data))
    + if t.len() > 0 { line_items(m, framed(p, t, s)) } else { Seq::<Seq<u8>>::empty() }
}

/// Without a keyword, prefix or suffix the sequential scan prints its
/// input: every line matches, so what is written is the input itself, with
/// a newline added when its last line has none.
pub proof fn law_sequential_scan_without_keyword_prints_contents(scan_properties: ScanProperties, k: Vec<u8>, data: Seq<u8>)
    requires
        scan_properties.matcher == Matcher::Keyword(k),
        k@.len() == 0,
        scan_properties.prefix@.len() == 0,
        scan_properties.suffix@.len() == 0,
    ensures
        each_on_own_line(none_scan_items(scan_properties, data))
            == if data.len() == 0 || data.last() == NEWLINE { data } else { data.push(NEWLINE) },
{
    let m = scan_properties.matcher;
    let p = scan_properties.prefix@;
    let s = scan_properties.suffix@;
    let pieces = split_pieces(data);
    let cl = complete_lines(data);
    let t = tail_piece(data);
    law_split_pieces_shape(data);
    lemma_unframed(m, p, s, cl);
    lemma_empty_keyword_items(k, cl);
    lemma_empty_keyword_items(k, seq![t]);
    assert(seq![t].drop_last() =~= Seq::<Seq<u8>>::empty());
    assert(framed(p, t, s) =~= t);
    assert(pieces =~= cl.push(t));
    if t.len() == 0 {
        assert(none_scan_items(scan_properties, data) =~= cl);
        if cl.len() == 0 {
            assert(pieces =~= seq![t]);
            assert(data =~= Seq::<u8>::empty());
        } else {
            lemma_each_on_own_line_join(cl);
            assert(join_lines(pieces) == join_lines(cl) + seq![NEWLINE] + t);
            assert(data =~= join_lines(cl).push(NEWLINE));
        }
    } else {
        assert(line_items(m, t) == seq![t]) by {
            assert(plain_items(m, seq![t]) == plain_items(m, Seq::<Seq<u8>>::empty()) + line_items(m, t));
            assert(plain_items(m, Seq::<Seq<u8>>::empty()) =~= Seq::<Seq<u8>>::empty());
            assert(Seq::<Seq<u8>>::empty() + line_items(m, t) =~= line_items(m, t));
        }
        assert(none_scan_items(scan_properties, data) =~= pieces);
        lemma_each_on_own_line_join(pieces);
        assert(data.last() == t.last()) by {
            if cl.len() == 0 {
                assert(pieces =~= seq![t]);
            } else {
                assert(join_lines(pieces) == join_lines(cl) + seq![NEWLINE] + t);
            }
        }
        assert(t.last() != NEWLINE) by {
            assert(crate::lines::newline_free(pieces[pieces.len() - 1]));
        }
    }
}

impl NoneScanner {
    /// Handles one read: matches every line the read completes and hands
    /// the results to `out`.
    #[verifier::loop_isolation(false)]
    pub fn scan_chunk(&self, scan_properties: &ScanProperties, stream: &mut LineStream, out: &mut Out, chunk: &[u8])
        requires
            old(stream).wf(),
        ensures
            final(stream).wf(),
            final(stream).consumed() == old(stream).consumed() + chunk@,
            final(stream).emitted() == old(stream).emitted() + fed_lines(*old(stream), *final(stream)),
            out_extended(*old(out), *final(out), framed_items(
                scan_properties.matcher, scan_properties.prefix@, scan_properties.suffix@,
                fed_lines(*old(stream), *final(stream)))),
    {
        let ghost before = *stream;
        let ghost start = *out;
        let lines = stream.feed(chunk);
        let ghost new_lines = vec_views(lines@);
        let ghost m = scan_properties.matcher;
        let ghost p = scan_properties.prefix@;
        let ghost s = scan_properties.suffix@;
        proof {
            assert(fed_lines(before, *stream) =~= new_lines);
            assert(new_lines.take(0) =~= Seq::<Seq<u8>>::empty());
            lemma_out_extended_refl(*out);
        }
        let mut k: usize = 0;
        while k < lines.len()
            invariant
                k <= lines@.len(),
                new_lines == vec_views(lines@),
                out_extended(start, *out, framed_items(m, p, s, new_lines.take(k as int))),
            decreases lines@.len() - k,
        {
            let ghost mid = *out;
            let line = concat3(scan_properties.prefix, lines[k].as_slice(), scan_properties.suffix);
            scan_line(self, scan_properties, line.as_slice(), out);
            proof {
                assert(new_lines.take(k + 1).drop_last() =~= new_lines.take(k as int));
                assert(new_lines.take(k + 1).last() == new_lines[k as int]);
                lemma_out_extended_trans(start, mid, *out, framed_items(m, p, s, new_lines.take(k as int)),
                    line_items(m, framed(p, new_lines[k as int], s)));
            }
            k = k + 1;
        }
        proof {
            assert(new_lines.take(lines@.len() as int) =~= new_lines);
        }
    }

    /// Handles the end of the input: matches a non-empty unterminated tail.
    pub fn scan_end(&self, scan_properties: &ScanProperties, stream: LineStream, out: &mut Out)
        requires
            stream.wf(),
        ensures
            out_extended(*old(out), *final(out),
                if tail_piece(stream.consumed()).len() > 0 {
                    line_items(scan_properties.matcher, framed(scan_properties.prefix@, tail_piece(stream.consumed()), scan_properties.suffix@))
                } else {
                    Seq::<Seq<u8>>::empty()
                }),
    {
        let tail = stream.finish();
        if !tail.is_empty() {
            let line = concat3(scan_properties.prefix, tail.as_slice(), scan_properties.suffix);
            scan_line(self, scan_properties, line.as_slice(), out);
        } else {
            proof {
                lemma_out_extended_refl(*out);
            }
        }
    }

    /// Scans the input that arrived in the reads `reads`, in order: returns
    /// the collected texts when `get` is set, and otherwise the bytes
    /// written.
    pub fn scan(&self, scan_properties: &ScanProperties, reads: &Vec<Vec<u8>>) -> (r: (Option<Vec<String>>, Vec<u8>))
        ensures
            ({
                let items = none_scan_items(*scan_properties, joined(vec_views(reads@)));
                &&& scan_properties.get ==> (r.0 matches Some(v) && string_views(v@) == lossy_texts(items))
                    && r.1@ == Seq::<u8>::empty()
                &&& !scan_properties.get ==> r.0 is None && r.1@ == crate::lines::each_on_own_line(items)
            }),
    {
        let mut out = Out::new(scan_properties.get);
        let ghost start = out;
        let mut stream = LineStream::new();
        let ghost m = scan_properties.matcher;
        let ghost p = scan_properties.prefix@;
        let ghost s = scan_properties.suffix@;
        let mut i: usize = 0;
        proof {
            lemma_out_extended_refl(out);
            assert(vec_views(reads@).take(0) =~= Seq::<Seq<u8>>::empty());
        }
        while i < reads.len()
            invariant
                i <= reads@.len(),
                stream.wf(),
                stream.consumed() == joined(vec_views(reads@).take(i as int)),
                out_extended(start, out, framed_items(m, p, s, stream.emitted())),
                m == scan_properties.matcher,
                p == scan_properties.prefix@,
                s == scan_properties.suffix@,
            decreases reads@.len() - i,
        {
            let ghost before_stream = stream;
            let ghost before_out = out;
            self.scan_chunk(scan_properties, &mut stream, &mut out, reads[i].as_slice());
            proof {
                let v = vec_views(reads@);
                assert(v.take(i + 1).drop_last() =~= v.take(i as int));
                assert(v.take(i + 1).last() == reads@[i as int]@);
                lemma_framed_items_append(m, p, s, before_stream.emitted(), fed_lines(before_stream, stream));
                lemma_out_extended_trans(start, before_out, out, framed_items(m, p, s, before_stream.emitted()),
                    framed_items(m, p, s, fed_lines(before_stream, stream)));
            }
            i = i + 1;
        }
        proof {
            assert(vec_views(reads@).take(reads@.len() as int) =~= vec_views(reads@));
            law_stream_matches_whole_input(stream);
        }
        let ghost whole = stream.consumed();
        let ghost mid = out;
        self.scan_end(scan_properties, stream, &mut out);
        proof {
            let t = tail_piece(whole);
            lemma_out_extended_trans(start, mid, out, framed_items(m, p, s, complete_lines(whole)),
                if t.len() > 0 { line_items(m, framed(p, t, s)) } else { Seq::<Seq<u8>>::empty() });
            if scan_properties.get {
                assert(start.results_view() + lossy_texts(none_scan_items(*scan_properties, whole)) =~= lossy_texts(none_scan_items(*scan_properties, whole)));
            } else {
                assert(start.written() + crate::lines::each_on_own_line(none_scan_items(*scan_properties, whole))
                    =~= crate::lines::each_on_own_line(none_scan_items(*scan_properties, whole)));
            }
        }
        let written = out.take_written();
        (out.get_results(), written)
    }
}

} // verus!
