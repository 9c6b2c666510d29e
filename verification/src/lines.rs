//! Splitting bytes into lines at newline bytes.
//!
//! `split_pieces(data)` is the sequence of pieces between newline bytes, the
//! same pieces that `data.split(|&b| b == b'\n')` yields: a text with `n`
//! newlines has `n + 1` pieces, the last one being what follows the last
//! newline (empty when the text ends with a newline).  The complete lines
//! of a text are all pieces but the last; the last piece is its unterminated
//! tail.
use vstd::prelude::*;
use crate::search::NEWLINE;

verus! {

/// The pieces of `s` between newline bytes.
pub open spec fn split_pieces(s: Seq<u8>) -> Seq<Seq<u8>>
    decreases s.len(),
{
    if s.len() == 0 {
        seq![Seq::<u8>::empty()]
    } else {
        let p = split_pieces(s.drop_last());
        if s.last() == NEWLINE {
            p.push(Seq::<u8>::empty())
        } else {
            p.update(p.len() - 1, p.last().push(s.last()))
        }
    }
}

/// The complete (newline-terminated) lines of `s`, without their newlines.
pub open spec fn complete_lines(s: Seq<u8>) -> Seq<Seq<u8>> {
    split_pieces(s).drop_last()
}

/// What follows the last newline of `s`.
pub open spec fn tail_piece(s: Seq<u8>) -> Seq<u8> {
    split_pieces(s).last()
}

/// `s` holds no newline byte.
pub open spec fn newline_free(s: Seq<u8>) -> bool {
    forall|i: int| 0 <= i < s.len() ==> s[i] != NEWLINE
}

/// `i` is where a line begins in `s`: at the start or right after a newline.
pub open spec fn is_line_start(s: Seq<u8>, i: int) -> bool {
    i == 0 || (0 < i <= s.len() && s[i - 1] == NEWLINE)
}

/// The pieces joined back together with a newline between neighbours.
pub open spec fn join_lines(pieces: Seq<Seq<u8>>) -> Seq<u8>
    decreases pieces.len(),
{
    if pieces.len() == 0 {
        Seq::<u8>::empty()
    } else if pieces.len() == 1 {
        pieces[0]
    } else {
        join_lines(pieces.drop_last()) + seq![NEWLINE] + pieces.last()
    }
}

/// The number of newline bytes in `s`.
pub open spec fn newline_count(s: Seq<u8>) -> nat
    decreases s.len(),
{
    if s.len() == 0 {
        0
    } else {
        newline_count(s.drop_last()) + if s.last() == NEWLINE { 1nat } else { 0nat }
    }
}

/// Splitting is well formed: there is one piece more than there are
/// newlines, no piece holds a newline, and joining the pieces with newlines
/// gives the text back.
pub proof fn law_split_pieces_shape(s: Seq<u8>)
    ensures
        split_pieces(s).len() == newline_count(s) + 1,
        forall|k: int| 0 <= k < split_pieces(s).len() ==> newline_free(#[trigger] split_pieces(s)[k]),
        join_lines(split_pieces(s)) == s,
    decreases s.len(),
{
    if s.len() > 0 {
        let t = s.drop_last();
        law_split_pieces_shape(t);
        let p = split_pieces(t);
        let q = split_pieces(s);
        assert(t.push(s.last()) =~= s);
        if s.last() == NEWLINE {
            assert(q.drop_last() =~= p);
            assert forall|k: int| 0 <= k < q.len() implies newline_free(#[trigger] q[k]) by {
                if k < p.len() {
                    assert(q[k] == p[k]);
                }
            }
            assert(join_lines(q) =~= join_lines(p) + seq![NEWLINE]);
        } else {
            let last = p.last().push(s.last());
            assert forall|k: int| 0 <= k < q.len() implies newline_free(#[trigger] q[k]) by {
                if k < p.len() - 1 {
                    assert(q[k] == p[k]);
                } else {
                    assert(q[k] == last);
                    assert(newline_free(p[p.len() - 1]));
                }
            }
            if p.len() == 1 {
                assert(join_lines(q) == q[0]);
                assert(join_lines(p) == p[0]);
                assert(q[0] =~= p[0].push(s.last()));
                assert(join_lines(q) =~= s);
            } else {
                assert(q.drop_last() =~= p.drop_last());
                assert(join_lines(q) == join_lines(p.drop_last()) + seq![NEWLINE] + last);
                assert(join_lines(p) == join_lines(p.drop_last()) + seq![NEWLINE] + p.last());
                assert(join_lines(q) =~= join_lines(p).push(s.last()));
            }
        }
    }
}

/// Splitting a text without newlines gives the text as its only piece.
pub proof fn lemma_split_newline_free(s: Seq<u8>)
    requires
        newline_free(s),
    ensures
        split_pieces(s) == seq![s],
    decreases s.len(),
{
    if s.len() > 0 {
        let t = s.drop_last();
        lemma_split_newline_free(t);
        assert(t.push(s.last()) =~= s);
        assert(split_pieces(s) =~= seq![s]);
    } else {
        assert(s =~= Seq::<u8>::empty());
    }
}

/// The pieces of a concatenation: the pieces of `x` but its last one, then
/// the pieces of that last piece followed by `y`.
pub proof fn lemma_split_concat(x: Seq<u8>, y: Seq<u8>)
    ensures
        split_pieces(x + y) == split_pieces(x).drop_last() + split_pieces(split_pieces(x).last() + y),
    decreases y.len(),
{
    let p = split_pieces(x);
    law_split_pieces_shape(x);
    if y.len() == 0 {
        assert(x + y =~= x);
        assert(p.last() + y =~= p.last());
        assert(newline_free(p[p.len() - 1]));
        lemma_split_newline_free(p.last());
        assert(p.drop_last() + seq![p.last()] =~= p);
    } else {
        let y0 = y.drop_last();
        let b = y.last();
        lemma_split_concat(x, y0);
        let a = p.drop_last();
        let bb = split_pieces(p.last() + y0);
        law_split_pieces_shape(p.last() + y0);
        assert((x + y).drop_last() =~= x + y0);
        assert((x + y).last() == b);
        assert((p.last() + y).drop_last() =~= p.last() + y0);
        assert((p.last() + y).last() == b);
        if b == NEWLINE {
            assert((a + bb).push(Seq::<u8>::empty()) =~= a + bb.push(Seq::<u8>::empty()));
        } else {
            let ab = a + bb;
            assert(ab.last() == bb.last());
            assert(ab.update(ab.len() - 1, ab.last().push(b)) =~= a + bb.update(bb.len() - 1, bb.last().push(b)));
        }
    }
}

/// Splitting a text that begins with a line `u` and its newline: `u` is the
/// first piece and the rest are the pieces of what follows.
pub proof fn lemma_split_first_line(u: Seq<u8>, v: Seq<u8>)
    requires
        newline_free(u),
    ensures
        split_pieces(u + seq![NEWLINE] + v) == seq![u] + split_pieces(v),
{
    let x = u + seq![NEWLINE];
    lemma_split_newline_free(u);
    assert(x.drop_last() =~= u);
    assert(split_pieces(x) =~= seq![u, Seq::<u8>::empty()]);
    lemma_split_concat(x, v);
    assert(Seq::<u8>::empty() + v =~= v);
    assert(x + v =~= u + seq![NEWLINE] + v);
    assert(split_pieces(x).drop_last() =~= seq![u]);
}

/// Cutting a text at a line start: the complete lines before the cut, then
/// the pieces of the rest.
pub proof fn lemma_split_at_line_start(s: Seq<u8>, i: int)
    requires
        0 <= i <= s.len(),
        is_line_start(s, i),
    ensures
        split_pieces(s) == complete_lines(s.take(i)) + split_pieces(s.skip(i)),
        tail_piece(s.take(i)) == Seq::<u8>::empty(),
{
    let x = s.take(i);
    if i == 0 {
        assert(x =~= Seq::<u8>::empty());
        assert(s.skip(0) =~= s);
        assert(complete_lines(x) =~= Seq::<Seq<u8>>::empty());
        assert(complete_lines(x) + split_pieces(s) =~= split_pieces(s));
    } else {
        assert(x.last() == NEWLINE);
        law_split_pieces_shape(x.drop_last());
        assert(split_pieces(x).last() =~= Seq::<u8>::empty());
        lemma_split_concat(x, s.skip(i));
        assert(x + s.skip(i) =~= s);
        assert(Seq::<u8>::empty() + s.skip(i) =~= s.skip(i));
    }
}

/// The complete lines of `s` cut at a line start `i`: those before the cut,
/// then those after it; the tail is that of the part after the cut.
pub proof fn lemma_lines_at_cut(s: Seq<u8>, i: int)
    requires
        0 <= i <= s.len(),
        is_line_start(s, i),
    ensures
        complete_lines(s) == complete_lines(s.take(i)) + complete_lines(s.skip(i)),
        tail_piece(s) == tail_piece(s.skip(i)),
        tail_piece(s.take(i)) == Seq::<u8>::empty(),
{
    lemma_split_at_line_start(s, i);
    law_split_pieces_shape(s.skip(i));
    let a = complete_lines(s.take(i));
    let p = split_pieces(s.skip(i));
    assert((a + p).drop_last() =~= a + p.drop_last());
    assert((a + p).last() == p.last());
}

/// Extending a prefix that ends at a line start by one more complete line
/// `s[b..e]` (with `s[e]` the newline) adds that line to the complete lines.
pub proof fn lemma_complete_lines_step(s: Seq<u8>, b: int, e: int)
    requires
        0 <= b <= e < s.len(),
        is_line_start(s, b),
        s[e] == NEWLINE,
        newline_free(s.subrange(b, e)),
    ensures
        complete_lines(s.take(e + 1)) == complete_lines(s.take(b)).push(s.subrange(b, e)),
        is_line_start(s, e + 1),
{
    let x = s.take(e + 1);
    lemma_split_at_line_start(x, b);
    assert(x.take(b) =~= s.take(b));
    assert(x.skip(b) =~= s.subrange(b, e) + seq![NEWLINE] + Seq::<u8>::empty());
    lemma_split_first_line(s.subrange(b, e), Seq::<u8>::empty());
    assert(split_pieces(Seq::<u8>::empty()) =~= seq![Seq::<u8>::empty()]);
    assert(split_pieces(x) =~= complete_lines(s.take(b)) + seq![s.subrange(b, e), Seq::<u8>::empty()]);
    assert(complete_lines(x) =~= complete_lines(s.take(b)).push(s.subrange(b, e)));
}

/// The last line of a text: after the final line start `b`, when no newline
/// follows, `s[b..]` is the tail and the complete lines are those before `b`.
pub proof fn lemma_tail_after_line_start(s: Seq<u8>, b: int)
    requires
        0 <= b <= s.len(),
        is_line_start(s, b),
        newline_free(s.skip(b)),
    ensures
        complete_lines(s) == complete_lines(s.take(b)),
        tail_piece(s) == s.skip(b),
{
    lemma_split_at_line_start(s, b);
    lemma_split_newline_free(s.skip(b));
    assert(split_pieces(s) =~= complete_lines(s.take(b)).push(s.skip(b)));
    assert(split_pieces(s).drop_last() =~= complete_lines(s.take(b)));
}

/// The index of the first newline in `s` at or after `from`, or `s.len()`
/// when there is none.
pub open spec fn next_newline(s: Seq<u8>, from: int) -> int
    decreases s.len() - from,
{
    if from < 0 {
        next_newline(s, 0)
    } else if from >= s.len() {
        s.len() as int
    } else if s[from] == NEWLINE {
        from
    } else {
        next_newline(s, from + 1)
    }
}

/// `next_newline` finds the first newline at or after `from`.
pub proof fn lemma_next_newline(s: Seq<u8>, from: int)
    requires
        0 <= from <= s.len(),
    ensures
        from <= next_newline(s, from) <= s.len(),
        next_newline(s, from) < s.len() ==> s[next_newline(s, from)] == NEWLINE,
        newline_free(s.subrange(from, next_newline(s, from))),
    decreases s.len() - from,
{
    if from < s.len() && s[from] != NEWLINE {
        lemma_next_newline(s, from + 1);
        let k = next_newline(s, from + 1);
        assert forall|i: int| 0 <= i < s.subrange(from, k).len() implies #[trigger] s.subrange(from, k)[i] != NEWLINE by {
            if i > 0 {
                assert(s.subrange(from, k)[i] == s.subrange(from + 1, k)[i - 1]);
            }
        }
    }
}

/// When the bytes of `s[from..k]` hold no newline and `s[k]` is one (or
/// `k == s.len()`), the next newline at or after `from` is at `k`.
pub proof fn lemma_next_newline_at(s: Seq<u8>, from: int, k: int)
    requires
        0 <= from <= k <= s.len(),
        newline_free(s.subrange(from, k)),
        k < s.len() ==> s[k] == NEWLINE,
    ensures
        next_newline(s, from) == k,
    decreases k - from,
{
    if from < k {
        assert(s.subrange(from, k)[0] == s[from]);
        assert forall|i: int| 0 <= i < s.subrange(from + 1, k).len() implies #[trigger] s.subrange(from + 1, k)[i] != NEWLINE by {
            assert(s.subrange(from + 1, k)[i] == s.subrange(from, k)[i + 1]);
        }
        lemma_next_newline_at(s, from + 1, k);
    }
}

/// When the bytes of `s[from..to]` hold no newline, the next newline at or
/// after `from` is the next one at or after `to`.
pub proof fn lemma_next_newline_skip(s: Seq<u8>, from: int, to: int)
    requires
        0 <= from <= to <= s.len(),
        newline_free(s.subrange(from, to)),
    ensures
        next_newline(s, from) == next_newline(s, to),
    decreases to - from,
{
    if from < to {
        assert(s.subrange(from, to)[0] == s[from]);
        assert forall|i: int| 0 <= i < s.subrange(from + 1, to).len() implies #[trigger] s.subrange(from + 1, to)[i] != NEWLINE by {
            assert(s.subrange(from + 1, to)[i] == s.subrange(from, to)[i + 1]);
        }
        lemma_next_newline_skip(s, from + 1, to);
    }
}

/// Reading `memchr(b'\n', &s[from..to])`: a hit at `p` is the next newline
/// at or after `from`; a miss means there is none before `to`.
pub proof fn lemma_memchr_newline(s: Seq<u8>, from: int, to: int, r: Option<usize>)
    requires
        0 <= from <= to <= s.len(),
        match r {
            Some(p) => crate::search::is_first_byte(s.subrange(from, to), NEWLINE, p as int),
            None => crate::search::lacks_byte(s.subrange(from, to), NEWLINE),
        },
    ensures
        match r {
            Some(p) => next_newline(s, from) == from + p && from + p < to,
            None => next_newline(s, from) == next_newline(s, to) && newline_free(s.subrange(from, to)),
        },
{
    match r {
        Some(p) => {
            let k = from + p;
            assert forall|i: int| 0 <= i < s.subrange(from, k).len() implies #[trigger] s.subrange(from, k)[i] != NEWLINE by {
                assert(s.subrange(from, k)[i] == s.subrange(from, to)[i]);
            }
            assert(s[k] == s.subrange(from, to)[p as int]);
            lemma_next_newline_at(s, from, k);
        },
        None => {
            lemma_next_newline_skip(s, from, to);
        },
    }
}

/// The outputs of the lines, one after another.
pub open spec fn concat_map(lines: Seq<Seq<u8>>, f: spec_fn(Seq<u8>) -> Seq<u8>) -> Seq<u8>
    decreases lines.len(),
{
    if lines.len() == 0 {
        Seq::<u8>::empty()
    } else {
        concat_map(lines.drop_last(), f) + f(lines.last())
    }
}

/// The outputs of two runs of lines are the outputs of their concatenation.
pub proof fn lemma_concat_map_append(a: Seq<Seq<u8>>, b: Seq<Seq<u8>>, f: spec_fn(Seq<u8>) -> Seq<u8>)
    ensures
        concat_map(a + b, f) == concat_map(a, f) + concat_map(b, f),
    decreases b.len(),
{
    if b.len() == 0 {
        assert(a + b =~= a);
        assert(concat_map(a, f) + Seq::<u8>::empty() =~= concat_map(a, f));
    } else {
        lemma_concat_map_append(a, b.drop_last(), f);
        assert((a + b).drop_last() =~= a + b.drop_last());
        assert((a + b).last() == b.last());
        assert(concat_map(a + b, f) =~= concat_map(a, f) + concat_map(b, f));
    }
}

/// Each item followed by a newline.
pub open spec fn each_on_own_line(items: Seq<Seq<u8>>) -> Seq<u8>
    decreases items.len(),
{
    if items.len() == 0 {
        Seq::<u8>::empty()
    } else {
        each_on_own_line(items.drop_last()) + items.last().push(NEWLINE)
    }
}

/// Each item of two lists on its own line is each item of their
/// concatenation on its own line.
pub proof fn lemma_each_on_own_line_append(a: Seq<Seq<u8>>, b: Seq<Seq<u8>>)
    ensures
        each_on_own_line(a + b) == each_on_own_line(a) + each_on_own_line(b),
    decreases b.len(),
{
    if b.len() == 0 {
        assert(a + b =~= a);
        assert(each_on_own_line(a) + Seq::<u8>::empty() =~= each_on_own_line(a));
    } else {
        lemma_each_on_own_line_append(a, b.drop_last());
        assert((a + b).drop_last() =~= a + b.drop_last());
        assert((a + b).last() == b.last());
        assert(each_on_own_line(a + b) =~= each_on_own_line(a) + each_on_own_line(b));
    }
}

/// Each piece on its own line is the pieces joined with newlines, plus a
/// final newline.
pub proof fn lemma_each_on_own_line_join(pieces: Seq<Seq<u8>>)
    requires
        pieces.len() > 0,
    ensures
        each_on_own_line(pieces) == join_lines(pieces).push(NEWLINE),
    decreases pieces.len(),
{
    if pieces.len() == 1 {
        lemma_each_on_own_line_one(pieces[0]);
        assert(pieces =~= seq![pieces[0]]);
    } else {
        lemma_each_on_own_line_join(pieces.drop_last());
        assert(join_lines(pieces) == join_lines(pieces.drop_last()) + seq![NEWLINE] + pieces.last());
        assert(each_on_own_line(pieces) =~= join_lines(pieces).push(NEWLINE));
    }
}

/// One item on its own line.
pub proof fn lemma_each_on_own_line_one(x: Seq<u8>)
    ensures
        each_on_own_line(seq![x]) == x.push(NEWLINE),
{
    assert(seq![x].drop_last() =~= Seq::<Seq<u8>>::empty());
    assert(seq![x].last() == x);
    assert(each_on_own_line(Seq::<Seq<u8>>::empty()) == Seq::<u8>::empty());
    assert(Seq::<u8>::empty() + x.push(NEWLINE) =~= x.push(NEWLINE));
}

/// Reading `memchr(b'\n', &s[b..to])` that found a newline at `p`: the bytes
/// `s[b..b + p]` hold no newline and `s[b + p]` is one.
pub proof fn lemma_found_newline(s: Seq<u8>, b: int, to: int, p: int)
    requires
        0 <= b <= to <= s.len(),
        crate::search::is_first_byte(s.subrange(b, to), NEWLINE, p),
    ensures
        b + p < to,
        s[b + p] == NEWLINE,
        newline_free(s.subrange(b, b + p)),
{
    assert(s[b + p] == s.subrange(b, to)[p]);
    assert forall|i: int| 0 <= i < s.subrange(b, b + p).len() implies #[trigger] s.subrange(b, b + p)[i] != NEWLINE by {
        assert(s.subrange(b, b + p)[i] == s.subrange(b, to)[i]);
    }
}

/// The lines of `data`: its complete lines, then its tail when that is not
/// empty.
pub open spec fn text_lines(data: Seq<u8>) -> Seq<Seq<u8>> {
    if tail_piece(data).len() > 0 {
        complete_lines(data).push(tail_piece(data))
    } else {
        complete_lines(data)
    }
}

/// `data` with a newline added when its last line has none.
pub open spec fn newline_terminated(data: Seq<u8>) -> Seq<u8> {
    if data.len() == 0 || data.last() == NEWLINE { data } else { data.push(NEWLINE) }
}

/// Writing each line of a text on its own line gives the text back, with a
/// newline added when its last line has none.
pub proof fn lemma_text_lines_on_own_lines(data: Seq<u8>)
    ensures
        each_on_own_line(text_lines(data)) == newline_terminated(data),
{
    let pieces = split_pieces(data);
    let cl = complete_lines(data);
    let t = tail_piece(data);
    law_split_pieces_shape(data);
    lemma_each_on_own_line_join(pieces);
    assert(pieces =~= cl.push(t));
    assert(pieces.drop_last() == cl);
    assert(each_on_own_line(pieces) == each_on_own_line(cl) + t.push(NEWLINE));
    if pieces.len() > 1 {
        assert(join_lines(pieces) == join_lines(cl) + seq![NEWLINE] + t);
    }
    if t.len() == 0 {
        if pieces.len() > 1 {
            assert(data =~= join_lines(cl) + seq![NEWLINE]);
        } else {
            assert(data =~= t);
        }
        assert(each_on_own_line(cl) =~= (each_on_own_line(cl) + t.push(NEWLINE)).drop_last());
        assert(data.push(NEWLINE).drop_last() =~= data);
    } else {
        assert(newline_free(pieces[pieces.len() - 1]));
        if pieces.len() > 1 {
            assert(data.last() == t.last());
        } else {
            assert(data =~= t);
        }
        assert(t.last() == t[t.len() - 1]);
    }
}

/// A keyword that holds no newline occurs in a line followed by its
/// newline exactly when it occurs in the line.
pub proof fn lemma_contains_with_newline(line: Seq<u8>, kw: Seq<u8>)
    requires
        kw.len() > 0,
        newline_free(kw),
    ensures
        crate::search::contains(line.push(NEWLINE), kw) == crate::search::contains(line, kw),
{
    let l = line.push(NEWLINE);
    if crate::search::contains(l, kw) {
        let i = choose|i: int| crate::search::occurs_at(l, kw, i);
        if i + kw.len() == l.len() {
            assert(kw[kw.len() - 1] == l.subrange(i, i + kw.len())[kw.len() - 1]);
        }
        assert(line.subrange(i, i + kw.len()) =~= l.subrange(i, i + kw.len()));
        assert(crate::search::occurs_at(line, kw, i));
    }
    if crate::search::contains(line, kw) {
        let i = choose|i: int| crate::search::occurs_at(line, kw, i);
        assert(l.subrange(i, i + kw.len()) =~= line.subrange(i, i + kw.len()));
        assert(crate::search::occurs_at(l, kw, i));
    }
}

/// A copy of `line` followed by a newline.
pub fn with_newline(line: &[u8]) -> (r: Vec<u8>)
    ensures
        r@ == line@.push(NEWLINE),
{
    let mut r: Vec<u8> = Vec::with_capacity(line.len());
    let mut i: usize = 0;
    while i < line.len()
        invariant
            i <= line@.len(),
            r@ == line@.take(i as int),
        decreases line@.len() - i,
    {
        r.push(line[i]);
        proof {
            assert(line@.take(i + 1) =~= line@.take(i as int).push(line@[i as int]));
        }
        i = i + 1;
    }
    proof {
        assert(line@.take(line@.len() as int) =~= line@);
    }
    r.push(NEWLINE);
    r
}

/// No newline at or after `from` comes before the next one.
pub proof fn lemma_next_newline_min(s: Seq<u8>, from: int, k: int)
    requires
        0 <= from <= k < s.len(),
        s[k] == NEWLINE,
    ensures
        next_newline(s, from) <= k,
    decreases k - from,
{
    if s[from] != NEWLINE {
        lemma_next_newline_min(s, from + 1, k);
    }
}

/// The next newline moves no closer when the search starts later.
pub proof fn lemma_next_newline_mono(s: Seq<u8>, from: int, to: int)
    requires
        0 <= from <= to <= s.len(),
    ensures
        next_newline(s, from) <= next_newline(s, to),
{
    lemma_next_newline(s, to);
    lemma_next_newline(s, from);
    if next_newline(s, to) < s.len() {
        lemma_next_newline_min(s, from, next_newline(s, to));
    }
}

/// `lemma_complete_lines_step` for the region of `s` that starts at `b`:
/// adding the line `s[begin..k]` (with `s[k]` its newline) to the region
/// `s[b..begin]` adds it to the region's complete lines.
pub proof fn lemma_complete_lines_step_from(s: Seq<u8>, b: int, begin: int, k: int)
    requires
        0 <= b <= begin <= k < s.len(),
        begin == b || s[begin - 1] == NEWLINE,
        s[k] == NEWLINE,
        newline_free(s.subrange(begin, k)),
    ensures
        complete_lines(s.subrange(b, k + 1)) == complete_lines(s.subrange(b, begin)).push(s.subrange(begin, k)),
{
    let t = s.subrange(b, s.len() as int);
    assert(t.subrange(begin - b, k - b) =~= s.subrange(begin, k));
    if begin > b {
        assert(t[begin - b - 1] == s[begin - 1]);
    }
    assert(t[k - b] == s[k]);
    lemma_complete_lines_step(t, begin - b, k - b);
    assert(t.take(k - b + 1) =~= s.subrange(b, k + 1));
    assert(t.take(begin - b) =~= s.subrange(b, begin));
}

/// The region `s[b..b]` has no complete lines.
pub proof fn lemma_empty_region(s: Seq<u8>, b: int)
    requires
        0 <= b <= s.len(),
    ensures
        complete_lines(s.subrange(b, b)) == Seq::<Seq<u8>>::empty(),
{
    assert(s.subrange(b, b) =~= Seq::<u8>::empty());
    assert(complete_lines(Seq::<u8>::empty()) =~= Seq::<Seq<u8>>::empty());
}

/// The spans `(begin, end)` of the pieces of `data` between newline bytes,
/// as `data.split(|&b| b == b'\n')` yields them.
pub fn split_spans(data: &[u8]) -> (spans: Vec<(usize, usize)>)
    ensures
        spans@.len() == split_pieces(data@).len(),
        forall|k: int| 0 <= k < spans@.len() ==> {
            &&& (#[trigger] spans@[k]).0 <= spans@[k].1 <= data@.len()
            &&& data@.subrange(spans@[k].0 as int, spans@[k].1 as int) == split_pieces(data@)[k]
        },
{
    let mut spans: Vec<(usize, usize)> = Vec::new();
    let mut begin: usize = 0;
    let mut i: usize = 0;
    while i < data.len()
        invariant
            begin <= i <= data@.len(),
            is_line_start(data@, begin as int),
            newline_free(data@.subrange(begin as int, i as int)),
            spans@.len() == complete_lines(data@.take(begin as int)).len(),
            forall|k: int| 0 <= k < spans@.len() ==> {
                &&& (#[trigger] spans@[k]).0 <= spans@[k].1 <= data@.len()
                &&& data@.subrange(spans@[k].0 as int, spans@[k].1 as int)
                    == complete_lines(data@.take(begin as int))[k]
            },
        decreases data@.len() - i,
    {
        if data[i] == NEWLINE {
            proof {
                lemma_complete_lines_step(data@, begin as int, i as int);
            }
            spans.push((begin, i));
            begin = i + 1;
            proof {
                assert(data@.subrange(begin as int, begin as int) =~= Seq::<u8>::empty());
            }
        } else {
            proof {
                assert(data@.subrange(begin as int, i + 1) =~= data@.subrange(begin as int, i as int).push(data@[i as int]));
            }
        }
        i = i + 1;
    }
    proof {
        assert(data@.skip(begin as int) =~= data@.subrange(begin as int, i as int));
        lemma_tail_after_line_start(data@, begin as int);
        law_split_pieces_shape(data@);
    }
    spans.push((begin, data.len()));
    proof {
        assert(split_pieces(data@) =~= complete_lines(data@).push(tail_piece(data@)));
    }
    spans
}


/// The spans `(begin, end)` of the lines of `data`: its complete lines,
/// then its unterminated last line when that is not empty.
pub fn line_spans(data: &[u8]) -> (spans: Vec<(usize, usize)>)
    ensures
        spans@.len() == text_lines(data@).len(),
        forall|k: int| 0 <= k < spans@.len() ==> {
            &&& (#[trigger] spans@[k]).0 <= spans@[k].1 <= data@.len()
            &&& data@.subrange(spans@[k].0 as int, spans@[k].1 as int) == text_lines(data@)[k]
        },
{
    let mut spans = split_spans(data);
    let ghost pieces = split_pieces(data@);
    proof {
        law_split_pieces_shape(data@);
        assert(pieces =~= complete_lines(data@).push(tail_piece(data@)));
    }
    let n = spans.len();
    let last = spans[n - 1];
    if last.0 == last.1 {
        let ghost before = spans@;
        spans.pop();
        proof {
            assert(data@.subrange(last.0 as int, last.1 as int) =~= Seq::<u8>::empty());
            assert(spans@ =~= before.drop_last());
            assert(text_lines(data@) == pieces.drop_last());
        }
    } else {
        proof {
            assert(pieces[n - 1] == data@.subrange(last.0 as int, last.1 as int));
            assert(text_lines(data@) == pieces);
        }
    }
    spans
}

} // verus!
