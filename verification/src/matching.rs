//! Matching a line against a keyword, a regular expression, or both.
//!
//! Keyword search is a substring search.  Regular expressions are compiled
//! and run by the `regex` crate; what a compiled pattern matches in a line is
//! named here (`regex_compiles`, `regex_is_match`, `regex_find_spans`) as a
//! function of the pattern text and the line bytes alone.
use vstd::prelude::*;
use crate::search::{contains, find_keyword};
use vstd::utf8::{valid_utf8, decode_utf8};

verus! {

#[verifier::external_type_specification]
#[verifier::external_body]
pub struct ExRegex(regex::bytes::Regex);

#[verifier::external_type_specification]
#[verifier::external_body]
pub struct ExRegexError(regex::Error);

/// Whether `regex::bytes::Regex::new` accepts the pattern.
pub uninterp spec fn regex_compiles(pattern: Seq<char>) -> bool;

/// Whether the compiled pattern matches anywhere in the haystack.
pub uninterp spec fn regex_is_match(pattern: Seq<char>, haystack: Seq<u8>) -> bool;

/// The `(start, end)` byte offsets of the successive non-overlapping
/// matches of the compiled pattern in the haystack.
pub uninterp spec fn regex_find_spans(pattern: Seq<char>, haystack: Seq<u8>) -> Seq<(usize, usize)>;

/// The text that `String::from_utf8_lossy` makes of the bytes.
pub uninterp spec fn utf8_lossy(bytes: Seq<u8>) -> Seq<char>;

/// The parts of `haystack` that the spans `(start, end)` mark, in order.
pub open spec fn span_items(spans: Seq<(usize, usize)>, haystack: Seq<u8>) -> Seq<Seq<u8>> {
    spans.map_values(|sp: (usize, usize)| haystack.subrange(sp.0 as int, sp.1 as int))
}

/// The matched parts of `line`, in order.
pub open spec fn regex_items(pattern: Seq<char>, line: Seq<u8>) -> Seq<Seq<u8>> {
    span_items(regex_find_spans(pattern, line), line)
}

/// The byte contents of a list of byte slices.
pub open spec fn slice_views(v: Seq<&[u8]>) -> Seq<Seq<u8>> {
    v.map_values(|s: &[u8]| s@)
}

/// A compiled regular expression together with the pattern it was compiled
/// from.  Values are made only by `compile_regex`, so `regex` is always the
/// compilation of `pattern`.
pub struct CompiledRegex {
    pattern: String,
    regex: regex::bytes::Regex,
}

impl CompiledRegex {
    /// The pattern text this regular expression was compiled from.
    pub closed spec fn pattern(&self) -> Seq<char> {
        self.pattern@
    }

    /// The pattern text this regular expression was compiled from.
    pub fn as_str(&self) -> (s: &str)
        ensures
            s@ == self.pattern(),
    {
        self.pattern.as_str()
    }
}

/// `regex::bytes::Regex::new`: compiles a pattern; it fails on an invalid
/// pattern or one whose compiled form exceeds the default size limit.  The
/// contract names the outcome `regex_compiles(pattern)`.
#[verifier::external_body]
fn regex_new(pattern: &str) -> (r: Result<regex::bytes::Regex, regex::Error>)
    ensures
        r.is_ok() == regex_compiles(pattern@),
{
    regex::bytes::Regex::new(pattern)
}

/// `regex::bytes::Regex::is_match`: whether the regex matches anywhere in
/// the haystack.  The claim rests on `re.regex` having been compiled from
/// `re.pattern`, which `compile_regex`, the only constructor, ensures.
#[verifier::external_body]
fn regex_is_match_in(re: &CompiledRegex, haystack: &[u8]) -> (r: bool)
    ensures
        r == regex_is_match(re.pattern(), haystack@),
{
    re.regex.is_match(haystack)
}

/// `regex::bytes::Regex::find_iter`: the offsets of the successive
/// non-overlapping matches.  The crate documents that each match has
/// `start <= end` and slices the haystack, and `is_match` is true exactly
/// when a match exists, i.e. when the list is not empty.
#[verifier::external_body]
fn regex_spans_in(re: &CompiledRegex, haystack: &[u8]) -> (r: Vec<(usize, usize)>)
    ensures
        r@ == regex_find_spans(re.pattern(), haystack@),
        forall|k: int| 0 <= k < r@.len() ==> (#[trigger] r@[k]).0 <= r@[k].1 <= haystack@.len(),
        r@.len() > 0 <==> regex_is_match(re.pattern(), haystack@),
{
    re.regex.find_iter(haystack).map(|m| (m.start(), m.end())).collect()
}

/// `String::from_utf8_lossy`: the bytes as text, with each invalid UTF-8
/// sequence replaced by U+FFFD.  The contract names the outcome, and states
/// what std documents of valid UTF-8: it comes back as the text it encodes.
#[verifier::external_body]
pub(crate) fn lossy_string(bytes: &[u8]) -> (s: String)
    ensures
        s@ == utf8_lossy(bytes@),
        valid_utf8(bytes@) ==> s@ == decode_utf8(bytes@),
{
    String::from_utf8_lossy(bytes).into_owned()
}

/// The error of compiling an invalid regular expression.
#[derive(Debug, Clone, Copy, PartialEq, Eq, Structural)]
pub enum RegexError {
    /// The pattern is not a valid regular expression, or compiles too big.
    Invalid,
}

/// Compiles a regular expression.
pub fn compile_regex(regex_str: &str) -> (r: Result<CompiledRegex, RegexError>)
    ensures
        r.is_ok() == regex_compiles(regex_str@),
        r matches Ok(c) ==> c.pattern() == regex_str@,
        r matches Err(e) ==> e == RegexError::Invalid,
{
    match regex_new(regex_str) {
        Ok(regex) => Ok(CompiledRegex { pattern: regex_str.to_owned(), regex }),
        Err(_) => Err(RegexError::Invalid),
    }
}

/// The parts of `haystack` that the spans mark, in order.
pub fn items_at_spans<'a>(haystack: &'a [u8], spans: &Vec<(usize, usize)>) -> (items: Vec<&'a [u8]>)
    requires
        forall|k: int| 0 <= k < spans@.len() ==> (#[trigger] spans@[k]).0 <= spans@[k].1 <= haystack@.len(),
    ensures
        slice_views(items@) == span_items(spans@, haystack@),
        items@.len() == spans@.len(),
{
    let mut items: Vec<&'a [u8]> = Vec::new();
    let mut k: usize = 0;
    while k < spans.len()
        invariant
            k <= spans@.len(),
            forall|j: int| 0 <= j < spans@.len() ==> (#[trigger] spans@[j]).0 <= spans@[j].1 <= haystack@.len(),
            items@.len() == k,
            slice_views(items@) == span_items(spans@, haystack@).take(k as int),
        decreases spans@.len() - k,
    {
        let (s, e) = spans[k];
        let part = vstd::slice::slice_subrange(haystack, s, e);
        let ghost old_items = items@;
        items.push(part);
        proof {
            let si = span_items(spans@, haystack@);
            assert(si[k as int] == haystack@.subrange(s as int, e as int));
            assert(si.take(k + 1) =~= si.take(k as int).push(si[k as int]));
            assert(slice_views(items@) =~= slice_views(items@.drop_last()).push(part@));
            assert(items@.drop_last() == old_items);
            assert(slice_views(items@) =~= si.take(k + 1));
        }
        k = k + 1;
    }
    proof {
        assert(span_items(spans@, haystack@).take(spans@.len() as int) =~= span_items(spans@, haystack@));
    }
    items
}

/// The parts of `haystack` that the regular expression matches, in order.
pub fn regex_find_items<'a>(re: &CompiledRegex, haystack: &'a [u8]) -> (items: Vec<&'a [u8]>)
    ensures
        slice_views(items@) == regex_items(re.pattern(), haystack@),
        items@.len() > 0 <==> regex_is_match(re.pattern(), haystack@),
{
    let spans = regex_spans_in(re, haystack);
    items_at_spans(haystack, &spans)
}

/// What a line is matched against.
pub enum Matcher {
    /// Lines that contain the keyword match, as a whole.
    Keyword(Vec<u8>),
    /// The parts of a line that the regular expression matches.
    Regex(CompiledRegex),
    /// The keyword first; failing it, the regular expression.
    Both(Vec<u8>, CompiledRegex),
}

/// The results that matching yields: the whole line for a keyword match,
/// the matched parts for a regular-expression match.
pub enum MatchStrategyIterator<'a> {
    /// The line, until it has been taken.
    Keyword(Option<&'a [u8]>),
    /// The matched parts and the index of the next one to hand out.
    Regex { items: Vec<&'a [u8]>, next: usize },
}

impl<'a> MatchStrategyIterator<'a> {
    /// The results not yet handed out, in order.
    pub open spec fn remaining(&self) -> Seq<Seq<u8>> {
        match self {
            MatchStrategyIterator::Keyword(o) => match o {
                Some(l) => seq![l@],
                None => Seq::<Seq<u8>>::empty(),
            },
            MatchStrategyIterator::Regex { items, next } =>
                if *next <= items@.len() { slice_views(items@.skip(*next as int)) } else { Seq::<Seq<u8>>::empty() },
        }
    }

    /// Hands out the next result.
    pub fn next(&mut self) -> (r: Option<&'a [u8]>)
        ensures
            old(self).remaining().len() == 0 ==> r is None && final(self).remaining().len() == 0,
            old(self).remaining().len() > 0 ==> {
                &&& r matches Some(x)
                &&& x@ == old(self).remaining()[0]
                &&& final(self).remaining() == old(self).remaining().drop_first()
            },
    {
        match self {
            MatchStrategyIterator::Keyword(o) => {
                let r = *o;
                *o = None;
                proof {
                    assert(Seq::<Seq<u8>>::empty() =~= seq![r.unwrap()@].drop_first());
                }
                r
            },
            MatchStrategyIterator::Regex { items, next } => {
                if *next < items.len() {
                    let x = items[*next];
                    proof {
                        assert(slice_views(items@.skip(*next + 1)) =~= slice_views(items@.skip(*next as int)).drop_first());
                    }
                    *next = *next + 1;
                    Some(x)
                } else {
                    None
                }
            },
        }
    }

    /// All remaining results, in order.
    pub fn collect_all(self) -> (v: Vec<&'a [u8]>)
        ensures
            slice_views(v@) == self.remaining(),
    {
        let ghost all = self.remaining();
        let mut it = self;
        let mut v: Vec<&'a [u8]> = Vec::new();
        proof {
            assert(all =~= slice_views(v@) + it.remaining());
        }
        loop
            invariant
                all == self.remaining(),
                all == slice_views(v@) + it.remaining(),
            decreases it.remaining().len(),
        {
            let ghost before = it.remaining();
            match it.next() {
                Some(x) => {
                    v.push(x);
                    proof {
                        assert(slice_views(v@) =~= slice_views(v@.drop_last()).push(x@));
                        assert(before =~= seq![x@] + before.drop_first());
                        assert(all =~= slice_views(v@) + it.remaining());
                    }
                },
                None => {
                    proof {
                        assert(all =~= slice_views(v@));
                    }
                    return v;
                },
            }
        }
    }
}

impl Matcher {
    /// What matching `line` yields: `None` when nothing matches.
    pub open spec fn spec_best_match(&self, line: Seq<u8>) -> Option<Seq<Seq<u8>>> {
        match self {
            Matcher::Keyword(k) => if contains(line, k@) { Some(seq![line]) } else { None },
            Matcher::Regex(r) =>
                if regex_is_match(r.pattern(), line) { Some(regex_items(r.pattern(), line)) } else { None },
            Matcher::Both(k, r) =>
                if contains(line, k@) {
                    Some(seq![line])
                } else if regex_is_match(r.pattern(), line) {
                    Some(regex_items(r.pattern(), line))
                } else {
                    None
                },
        }
    }

    /// Matches `line`: for a keyword found in it, the line itself; else for
    /// a regular expression that matches it, its matched parts.
    pub fn best_match<'a>(&'a self, line: &'a [u8]) -> (r: Option<MatchStrategyIterator<'a>>)
        ensures
            r is Some <==> self.spec_best_match(line@) is Some,
            r matches Some(it) ==> Some(it.remaining()) == self.spec_best_match(line@),
    {
        match self {
            Matcher::Keyword(keyword) => {
                if find_keyword(line, keyword.as_slice()) {
                    return Some(MatchStrategyIterator::Keyword(Some(line)));
                }
            },
            Matcher::Regex(regex) => {
                if regex_is_match_in(regex, line) {
                    let items = regex_find_items(regex, line);
                    proof {
                        assert(items@.skip(0) =~= items@);
                    }
                    return Some(MatchStrategyIterator::Regex { items, next: 0 });
                }
            },
            Matcher::Both(keyword, regex) => {
                if find_keyword(line, keyword.as_slice()) {
                    return Some(MatchStrategyIterator::Keyword(Some(line)));
                }
                if regex_is_match_in(regex, line) {
                    let items = regex_find_items(regex, line);
                    proof {
                        assert(items@.skip(0) =~= items@);
                    }
                    return Some(MatchStrategyIterator::Regex { items, next: 0 });
                }
            },
        }
        None
    }

    /// All results of matching `line`, in order (empty when nothing matches).
    pub fn match_items<'a>(&'a self, line: &'a [u8]) -> (v: Vec<&'a [u8]>)
        ensures
            slice_views(v@) == match self.spec_best_match(line@) {
                Some(items) => items,
                None => Seq::<Seq<u8>>::empty(),
            },
    {
        match self.best_match(line) {
            Some(it) => it.collect_all(),
            None => Vec::new(),
        }
    }
}

/// The keyword matcher yields a line, whole, exactly when the keyword
/// occurs in it as a run of consecutive bytes (an empty keyword occurs in
/// every line); otherwise it yields nothing.
pub proof fn law_keyword_matcher_selects_lines_holding_it(k: Vec<u8>, line: Seq<u8>)
    ensures
        (exists|i: int| 0 <= i && i + k@.len() <= line.len() && #[trigger] line.subrange(i, i + k@.len()) == k@)
            ==> Matcher::Keyword(k).spec_best_match(line) == Some(seq![line]),
        !(exists|i: int| 0 <= i && i + k@.len() <= line.len() && #[trigger] line.subrange(i, i + k@.len()) == k@)
            ==> Matcher::Keyword(k).spec_best_match(line) == None::<Seq<Seq<u8>>>,
{
    if exists|i: int| 0 <= i && i + k@.len() <= line.len() && #[trigger] line.subrange(i, i + k@.len()) == k@ {
        let i = choose|i: int| 0 <= i && i + k@.len() <= line.len() && #[trigger] line.subrange(i, i + k@.len()) == k@;
        assert(crate::search::occurs_at(line, k@, i));
    }
}

/// With both a keyword and a regular expression, a line that holds the
/// keyword is yielded whole, before the regular expression is tried; any
/// other line yields what the regular expression alone yields: the bytes
/// at each span it matches, in order, when it matches, and nothing else.
pub proof fn law_both_matcher_tries_keyword_first(k: Vec<u8>, r: CompiledRegex, line: Seq<u8>)
    ensures
        (exists|i: int| 0 <= i && i + k@.len() <= line.len() && #[trigger] line.subrange(i, i + k@.len()) == k@)
            ==> Matcher::Both(k, r).spec_best_match(line) == Some(seq![line]),
        !(exists|i: int| 0 <= i && i + k@.len() <= line.len() && #[trigger] line.subrange(i, i + k@.len()) == k@)
            ==> Matcher::Both(k, r).spec_best_match(line) == Matcher::Regex(r).spec_best_match(line),
        Matcher::Regex(r).spec_best_match(line) == if regex_is_match(r.pattern(), line) {
            Some(regex_find_spans(r.pattern(), line).map_values(|sp: (usize, usize)| line.subrange(sp.0 as int, sp.1 as int)))
        } else {
            None
        },
{
    if exists|i: int| 0 <= i && i + k@.len() <= line.len() && #[trigger] line.subrange(i, i + k@.len()) == k@ {
        let i = choose|i: int| 0 <= i && i + k@.len() <= line.len() && #[trigger] line.subrange(i, i + k@.len()) == k@;
        assert(crate::search::occurs_at(line, k@, i));
    }
}

} // verus!
