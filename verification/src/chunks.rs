//! Cutting a mapped file into chunks for parallel workers.
//!
//! With `n` workers and `c = len / n`, worker `id` takes the bytes from
//! `id * c` to `(id + 1) * c`, each boundary moved forward to just after the
//! next newline, so that every chunk holds whole lines; the last worker
//! takes everything up to the end of the data.  A worker other than the
//! first that finds no newline after its start has nothing to do.  The
//! chunks, in the order of the workers, cover the data exactly once
//! (`law_chunks_cover`).
use vstd::prelude::*;
use crate::search::{NEWLINE, memchr_byte};
use crate::lines::{next_newline, is_line_start, lemma_next_newline, lemma_memchr_newline, lemma_next_newline_mono};

verus! {

/// Where worker `id` of `n` starts, or `None` when it has nothing to do.
pub open spec fn chunk_begin(data: Seq<u8>, n: int, id: int) -> Option<int> {
    let c = (data.len() as int) / n;
    if id == 0 {
        Some(0)
    } else {
        let k = next_newline(data, id * c);
        if k < data.len() { Some(k + 1) } else { None }
    }
}

/// Where worker `id` of `n` stops (exclusive): the end of the data for the
/// last worker, else just after the first newline at or after
/// `(id + 1) * c`.
pub open spec fn chunk_end(data: Seq<u8>, n: int, id: int) -> int {
    let c = (data.len() as int) / n;
    let e = id * c + c;
    if id + 1 >= n {
        data.len() as int
    } else if e < data.len() {
        let k = next_newline(data, e);
        if k < data.len() { k + 1 } else { data.len() as int }
    } else {
        e
    }
}

proof fn lemma_chunk_arith(len: int, n: int, id: int)
    requires
        n > 0,
        0 <= id <= n,
        len >= 0,
    ensures
        0 <= id * (len / n) <= len,
        id < n ==> id * (len / n) + len / n <= len,
        0 <= len / n <= len,
{
    assert(0 <= len / n <= len) by (nonlinear_arith)
        requires n > 0, len >= 0;
    assert(n * (len / n) <= len) by (nonlinear_arith)
        requires n > 0, len >= 0;
    assert(0 <= id * (len / n) <= n * (len / n)) by (nonlinear_arith)
        requires 0 <= id <= n, 0 <= len / n;
    assert(id < n ==> id * (len / n) + len / n <= n * (len / n)) by (nonlinear_arith)
        requires 0 <= id <= n, 0 <= len / n;
}

/// The bounds `(begin, end)` of worker `id`'s chunk, or `None` when the
/// worker has nothing to do.
pub fn chunk_bounds(data: &[u8], n: usize, id: usize) -> (r: Option<(usize, usize)>)
    requires
        n > 0,
        id < n,
    ensures
        chunk_begin(data@, n as int, id as int) is None ==> r is None,
        chunk_begin(data@, n as int, id as int) is Some ==> (r matches Some((b, e)) && {
            &&& b as int == chunk_begin(data@, n as int, id as int).unwrap()
            &&& e as int == chunk_end(data@, n as int, id as int)
            &&& b <= data@.len()
            &&& e <= data@.len()
        }),
{
    let len = data.len();
    let chunk_size = len / n;
    proof {
        lemma_chunk_arith(len as int, n as int, id as int);
    }
    let mut begin: usize = id * chunk_size;
    let mut end: usize = begin + chunk_size;
    if id > 0 {
        let rest = vstd::slice::slice_subrange(data, begin, len);
        let found = memchr_byte(NEWLINE, rest);
        proof {
            lemma_memchr_newline(data@, begin as int, len as int, found);
            lemma_next_newline(data@, len as int);
        }
        match found {
            Some(b) => {
                begin = begin + b + 1;
            },
            None => {
                return None;
            },
        }
    }
    if id + 1 >= n {
        end = len;
    } else if end < len {
        let rest = vstd::slice::slice_subrange(data, end, len);
        let found = memchr_byte(NEWLINE, rest);
        proof {
            lemma_memchr_newline(data@, end as int, len as int, found);
            lemma_next_newline(data@, len as int);
        }
        match found {
            Some(b) => {
                end = end + b + 1;
            },
            None => {
                end = len;
            },
        }
    }
    Some((begin, end))
}

/// Neighbouring chunks meet: each worker stops where the next one starts,
/// or at the end of the data when the next one has nothing to do.
pub proof fn law_chunks_meet(data: Seq<u8>, n: int, id: int)
    requires
        n > 0,
        0 <= id,
        id + 1 < n,
    ensures
        chunk_end(data, n, id) == match chunk_begin(data, n, id + 1) {
            Some(b) => b,
            None => data.len() as int,
        },
{
    lemma_chunk_arith(data.len() as int, n, id + 1);
    let c = (data.len() as int) / n;
    assert(id * c + c == (id + 1) * c) by (nonlinear_arith);
    lemma_next_newline(data, (id + 1) * c);
}

/// Each chunk starts where a line starts, and ends where a line starts or
/// at the end of the data.
pub proof fn law_chunks_hold_whole_lines(data: Seq<u8>, n: int, id: int)
    requires
        n > 0,
        0 <= id < n,
    ensures
        chunk_begin(data, n, id) matches Some(b) ==> is_line_start(data, b) && b <= data.len(),
        chunk_end(data, n, id) <= data.len(),
        is_line_start(data, chunk_end(data, n, id)) || chunk_end(data, n, id) == data.len(),
        id == n - 1 ==> chunk_end(data, n, id) == data.len(),
{
    lemma_chunk_arith(data.len() as int, n, id);
    let c = (data.len() as int) / n;
    lemma_next_newline(data, id * c);
    if id * c + c < data.len() {
        lemma_next_newline(data, id * c + c);
    }
}

/// A worker `0 < k < n` that has nothing to do, or whose start is not
/// before its end, leaves no bytes between its neighbours: its end is the
/// end of the data, or its start.
pub proof fn lemma_chunk_empty_meets(data: Seq<u8>, n: int, k: int)
    requires
        n > 0,
        0 < k < n,
    ensures
        chunk_begin(data, n, k) is None ==> chunk_end(data, n, k) == data.len(),
        chunk_begin(data, n, k) matches Some(b) ==> (b >= chunk_end(data, n, k) ==> b == chunk_end(data, n, k)),
{
    let len = data.len() as int;
    lemma_chunk_arith(len, n, k);
    let c = len / n;
    let e0 = k * c + c;
    lemma_next_newline(data, k * c);
    if e0 < len {
        lemma_next_newline(data, e0);
        lemma_next_newline_mono(data, k * c, e0);
    }
}

/// What worker `id` of `n` produces when a worker's work on a region `s`
/// of the data is `f(s)`.
pub open spec fn chunk_part<A>(data: Seq<u8>, n: int, id: int, f: spec_fn(Seq<u8>) -> Seq<A>) -> Seq<A> {
    match chunk_begin(data, n, id) {
        Some(b) => if b < chunk_end(data, n, id) {
            f(data.subrange(b, chunk_end(data, n, id)))
        } else {
            Seq::<A>::empty()
        },
        None => Seq::<A>::empty(),
    }
}

/// What workers `0..k` of `n` produce, one after another.
pub open spec fn chunk_parts<A>(data: Seq<u8>, n: int, k: int, f: spec_fn(Seq<u8>) -> Seq<A>) -> Seq<A>
    decreases k,
{
    if k <= 0 {
        Seq::<A>::empty()
    } else {
        chunk_parts(data, n, k - 1, f) + chunk_part(data, n, k - 1, f)
    }
}

/// Work on a text that adds up over its lines: cutting the text at a line
/// start cuts the work into the work on the two parts.
pub open spec fn adds_up_over_lines<A>(f: spec_fn(Seq<u8>) -> Seq<A>) -> bool {
    &&& f(Seq::<u8>::empty()) == Seq::<A>::empty()
    &&& forall|s: Seq<u8>, i: int| 0 <= i <= s.len() && #[trigger] is_line_start(s, i) ==> f(s) == f(s.take(i)) + f(s.skip(i))
}

proof fn lemma_chunk_parts_prefix<A>(data: Seq<u8>, n: int, k: int, f: spec_fn(Seq<u8>) -> Seq<A>)
    requires
        0 < k <= n,
        adds_up_over_lines(f),
    ensures
        chunk_end(data, n, k - 1) <= data.len(),
        chunk_parts(data, n, k, f) == f(data.take(chunk_end(data, n, k - 1))),
    decreases k,
{
    law_chunks_hold_whole_lines(data, n, k - 1);
    let e = chunk_end(data, n, k - 1);
    if k == 1 {
        assert(chunk_parts(data, n, 0, f) == Seq::<A>::empty());
        if e > 0 {
            assert(data.subrange(0, e) =~= data.take(e));
        } else {
            assert(data.take(e) =~= Seq::<u8>::empty());
        }
        assert(Seq::<A>::empty() + chunk_part(data, n, 0, f) =~= chunk_part(data, n, 0, f));
    } else {
        lemma_chunk_parts_prefix(data, n, k - 1, f);
        law_chunks_meet(data, n, k - 2);
        lemma_chunk_empty_meets(data, n, k - 1);
        let b0 = chunk_end(data, n, k - 2);
        let before = chunk_parts(data, n, k - 1, f);
        match chunk_begin(data, n, k - 1) {
            Some(b) => {
                if b < e {
                    let x = data.take(e);
                    if b > 0 {
                        assert(x[b - 1] == data[b - 1]);
                    }
                    assert(is_line_start(x, b));
                    assert(x.take(b) =~= data.take(b));
                    assert(x.skip(b) =~= data.subrange(b, e));
                } else {
                    assert(data.take(e) =~= data.take(b0));
                    assert(before + Seq::<A>::empty() =~= before);
                }
            },
            None => {
                assert(before + Seq::<A>::empty() =~= before);
            },
        }
    }
}

/// The chunks cover the data exactly once, in order: when the work on a
/// region adds up over its lines, the workers' results, one after another,
/// are the work on the whole data, whatever the number of workers.
pub proof fn law_chunks_cover<A>(data: Seq<u8>, n: int, f: spec_fn(Seq<u8>) -> Seq<A>)
    requires
        n > 0,
        adds_up_over_lines(f),
    ensures
        chunk_parts(data, n, n, f) == f(data),
{
    lemma_chunk_parts_prefix(data, n, n, f);
    law_chunks_hold_whole_lines(data, n, n - 1);
    assert(data.take(data.len() as int) =~= data);
}

} // verus!
