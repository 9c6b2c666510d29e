//! Assembling lines from input that arrives in chunks.
//!
//! Standard input is read a buffer at a time, and a line may be cut across
//! two reads.  A `LineStream` keeps the unfinished line between reads and
//! hands out each line as soon as its newline arrives; at the end of the
//! input what remains is the unterminated tail.  However the input is cut
//! into chunks, the lines handed out are the complete lines of the whole
//! input, and the tail is its tail piece.
use vstd::prelude::*;
use crate::search::NEWLINE;
use crate::lines::{split_pieces, complete_lines, tail_piece, newline_free, law_split_pieces_shape};

verus! {

/// The byte contents of a list of byte vectors.
pub open spec fn vec_views(v: Seq<Vec<u8>>) -> Seq<Seq<u8>> {
    v.map_values(|l: Vec<u8>| l@)
}

/// The lines a stream handed out between two of its states.
pub open spec fn fed_lines(before: LineStream, after: LineStream) -> Seq<Seq<u8>> {
    after.emitted().subrange(before.emitted().len() as int, after.emitted().len() as int)
}

/// The chunks joined one after another.
pub open spec fn joined(chunks: Seq<Seq<u8>>) -> Seq<u8>
    decreases chunks.len(),
{
    if chunks.len() == 0 {
        Seq::<u8>::empty()
    } else {
        joined(chunks.drop_last()) + chunks.last()
    }
}

/// The state kept between reads: the unfinished line, with (as ghost state)
/// all input consumed so far and all lines handed out so far.
pub struct LineStream {
    pending: Vec<u8>,
    consumed: Ghost<Seq<u8>>,
    emitted: Ghost<Seq<Seq<u8>>>,
}

impl LineStream {
    /// The unfinished line.
    pub closed spec fn pending(&self) -> Seq<u8> {
        self.pending@
    }

    /// All input fed so far.
    pub closed spec fn consumed(&self) -> Seq<u8> {
        self.consumed@
    }

    /// All lines handed out so far, in order.
    pub closed spec fn emitted(&self) -> Seq<Seq<u8>> {
        self.emitted@
    }

    /// The lines handed out and the unfinished line are exactly the pieces
    /// of the input consumed so far.
    pub closed spec fn wf(&self) -> bool {
        split_pieces(self.consumed@) == self.emitted@.push(self.pending@)
    }

    /// A stream that has consumed nothing.
    pub fn new() -> (s: LineStream)
        ensures
            s.wf(),
            s.consumed() == Seq::<u8>::empty(),
            s.emitted() == Seq::<Seq<u8>>::empty(),
            s.pending() == Seq::<u8>::empty(),
    {
        let s = LineStream {
            pending: Vec::new(),
            consumed: Ghost(Seq::<u8>::empty()),
            emitted: Ghost(Seq::<Seq<u8>>::empty()),
        };
        proof {
            assert(s.emitted@.push(s.pending@) =~= seq![Seq::<u8>::empty()]);
        }
        s
    }

    /// Consumes one chunk of input and returns the lines (without their
    /// newlines) that the chunk completes, in order.
    pub fn feed(&mut self, chunk: &[u8]) -> (lines: Vec<Vec<u8>>)
        requires
            old(self).wf(),
        ensures
            final(self).wf(),
            final(self).consumed() == old(self).consumed() + chunk@,
            final(self).emitted() == old(self).emitted() + vec_views(lines@),
            split_pieces(old(self).pending() + chunk@) == vec_views(lines@).push(final(self).pending()),
    {
        let ghost start = self.pending@;
        let ghost before = self.consumed@;
        let ghost done = self.emitted@;
        let mut lines: Vec<Vec<u8>> = Vec::new();
        let mut cur: Vec<u8> = Vec::new();
        std::mem::swap(&mut cur, &mut self.pending);
        proof {
            assert(start + chunk@.take(0) =~= start);
            law_split_pieces_shape(before);
            assert(split_pieces(start) =~= seq![start]) by {
                crate::lines::lemma_split_newline_free(start);
            }
            assert(vec_views(lines@).push(cur@) =~= seq![start]);
        }
        let mut i: usize = 0;
        while i < chunk.len()
            invariant
                i <= chunk@.len(),
                split_pieces(start + chunk@.take(i as int)) == vec_views(lines@).push(cur@),
            decreases chunk@.len() - i,
        {
            let b = chunk[i];
            proof {
                let x = start + chunk@.take(i as int);
                let y = start + chunk@.take(i + 1);
                assert(y.drop_last() =~= x);
                assert(y.last() == b);
            }
            if b == NEWLINE {
                let mut line: Vec<u8> = Vec::new();
                std::mem::swap(&mut line, &mut cur);
                lines.push(line);
                proof {
                    assert(vec_views(lines@).push(cur@) =~= vec_views(lines@.drop_last()).push(line@).push(Seq::<u8>::empty()));
                }
            } else {
                let ghost old_cur = cur@;
                cur.push(b);
                proof {
                    let v = vec_views(lines@).push(old_cur);
                    assert(v.update(v.len() - 1, v.last().push(b)) =~= vec_views(lines@).push(cur@));
                }
            }
            i = i + 1;
        }
        proof {
            assert(chunk@.take(chunk@.len() as int) =~= chunk@);
            crate::lines::lemma_split_concat(before, chunk@);
            assert(split_pieces(before).drop_last() =~= done);
            assert(split_pieces(before).last() == start);
            assert(split_pieces(before + chunk@) =~= (done + vec_views(lines@)).push(cur@));
        }
        self.pending = cur;
        self.consumed = Ghost(before + chunk@);
        self.emitted = Ghost(done + vec_views(lines@));
        lines
    }

    /// Ends the input: returns the unterminated tail (empty when the input
    /// ended with a newline or was empty).
    pub fn finish(self) -> (tail: Vec<u8>)
        requires
            self.wf(),
        ensures
            tail@ == tail_piece(self.consumed()),
            newline_free(tail@),
    {
        proof {
            law_split_pieces_shape(self.consumed@);
            assert(split_pieces(self.consumed@).last() == self.pending@);
        }
        self.pending
    }
}

/// Reading in chunks loses and invents nothing: whatever the chunking, the
/// lines a well-formed stream has handed out are the complete lines of all
/// input consumed, and its unfinished line is the tail piece of that input.
pub proof fn law_stream_matches_whole_input(s: LineStream)
    requires
        s.wf(),
    ensures
        s.emitted() == complete_lines(s.consumed()),
        s.pending() == tail_piece(s.consumed()),
        newline_free(s.pending()),
{
    law_split_pieces_shape(s.consumed());
    let p = split_pieces(s.consumed());
    assert(p.drop_last() =~= s.emitted());
    assert(p[p.len() - 1] == s.pending());
}

/// Joining two runs of chunks joins their joins.
pub proof fn lemma_joined_append(a: Seq<Seq<u8>>, b: Seq<Seq<u8>>)
    ensures
        joined(a + b) == joined(a) + joined(b),
    decreases b.len(),
{
    if b.len() == 0 {
        assert(a + b =~= a);
        assert(joined(a) + Seq::<u8>::empty() =~= joined(a));
    } else {
        lemma_joined_append(a, b.drop_last());
        assert((a + b).drop_last() =~= a + b.drop_last());
        assert((a + b).last() == b.last());
        assert(joined(a + b) =~= joined(a) + joined(b));
    }
}

/// The first complete line of a text is that of any beginning of it that
/// holds a complete line.
pub proof fn lemma_first_line_of_prefix(x: Seq<u8>, y: Seq<u8>)
    requires
        complete_lines(x).len() > 0,
    ensures
        complete_lines(x + y).len() > 0,
        complete_lines(x + y)[0] == complete_lines(x)[0],
{
    crate::lines::lemma_split_concat(x, y);
    law_split_pieces_shape(x + y);
    law_split_pieces_shape(split_pieces(x).last() + y);
    let p = split_pieces(x).drop_last();
    let q = split_pieces(split_pieces(x).last() + y);
    assert((p + q).drop_last() =~= p + q.drop_last());
    assert((p + q.drop_last())[0] == p[0]);
}

} // verus!
