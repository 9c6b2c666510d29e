//! Scanners: each splits its input into lines, frames each line with the
//! prefix and suffix, matches it, and hands every result to the output.
//!
//! The output either collects the results as text (`Out::Results`) or
//! writes each result followed by a newline (`Out::Writer`).
use vstd::prelude::*;
use crate::search::{NEWLINE, occurs_at};
use crate::lines::each_on_own_line;
use crate::matching::{Matcher, MatchStrategyIterator, utf8_lossy, lossy_string};
use vstd::utf8::{valid_utf8, decode_utf8, encode_utf8};
use crate::input::Input;
use crate::parse::{ParseError, str_eq};
use crate::utils::write_util::{BufWrite, flush};
use crate::utils::stdout_util::{BufWriterImpl, create_stdout_buf_write};

pub mod none_scanner;
pub mod rayon_scanner;
pub mod stdthread_scanner;

pub use self::none_scanner::NoneScanner;
pub use self::rayon_scanner::RayonScanner;
pub use self::stdthread_scanner::StdThreadScanner;

verus! {

/// Where concurrent work runs, named in lowercase ("rayon", "stdthread").
#[derive(Debug, Clone, Copy, PartialEq, Eq, Structural)]
pub enum ConcurrencyProvider {
    Rayon,
    StdThread,
}

impl ConcurrencyProvider {
    /// The lowercase name of the provider.
    pub open spec fn spec_name(self) -> Seq<char> {
        match self {
            ConcurrencyProvider::Rayon => "rayon"@,
            ConcurrencyProvider::StdThread => "stdthread"@,
        }
    }

    /// Parses a provider from its lowercase name; the match is exact.
    pub fn from_str(s: &str) -> (r: Result<ConcurrencyProvider, ParseError>)
        ensures
            r matches Ok(m) ==> s@ == m.spec_name(),
            r is Err ==> (forall|m: ConcurrencyProvider| s@ != #[trigger] m.spec_name()),
            r matches Err(e) ==> e == ParseError::VariantNotFound,
    {
        if str_eq(s, "rayon") {
            Ok(ConcurrencyProvider::Rayon)
        } else if str_eq(s, "stdthread") {
            Ok(ConcurrencyProvider::StdThread)
        } else {
            proof {
                assert forall|m: ConcurrencyProvider| s@ != #[trigger] m.spec_name() by {
                    match m {
                        ConcurrencyProvider::Rayon => {},
                        ConcurrencyProvider::StdThread => {},
                    }
                }
            }
            Err(ParseError::VariantNotFound)
        }
    }
}

/// How the input is divided among workers, named in lowercase ("none",
/// "split", "chunk").
#[derive(Debug, Clone, Copy, PartialEq, Eq, Structural)]
pub enum ConcurrencyMethod {
    /// No concurrency (named "none").
    Sequential,
    Split,
    Chunk,
}

impl ConcurrencyMethod {
    /// The lowercase name of the method.
    pub open spec fn spec_name(self) -> Seq<char> {
        match self {
            ConcurrencyMethod::Sequential => "none"@,
            ConcurrencyMethod::Split => "split"@,
            ConcurrencyMethod::Chunk => "chunk"@,
        }
    }

    /// Parses a method from its lowercase name; the match is exact.
    pub fn from_str(s: &str) -> (r: Result<ConcurrencyMethod, ParseError>)
        ensures
            r matches Ok(m) ==> s@ == m.spec_name(),
            r is Err ==> (forall|m: ConcurrencyMethod| s@ != #[trigger] m.spec_name()),
            r matches Err(e) ==> e == ParseError::VariantNotFound,
    {
        if str_eq(s, "none") {
            Ok(ConcurrencyMethod::Sequential)
        } else if str_eq(s, "split") {
            Ok(ConcurrencyMethod::Split)
        } else if str_eq(s, "chunk") {
            Ok(ConcurrencyMethod::Chunk)
        } else {
            proof {
                assert forall|m: ConcurrencyMethod| s@ != #[trigger] m.spec_name() by {
                    match m {
                        ConcurrencyMethod::Sequential => {},
                        ConcurrencyMethod::Split => {},
                        ConcurrencyMethod::Chunk => {},
                    }
                }
            }
            Err(ParseError::VariantNotFound)
        }
    }
}

/// Where results go: collected as text, or written one per line.
pub enum Out {
    Results(Vec<String>),
    Writer(BufWrite),
}

/// The text of each result.
pub open spec fn lossy_texts(items: Seq<Seq<u8>>) -> Seq<Seq<char>> {
    items.map_values(|x: Seq<u8>| utf8_lossy(x))
}

/// Each item that is valid UTF-8 has as its text the text it encodes.
pub open spec fn valid_texts_decoded(items: Seq<Seq<u8>>) -> bool {
    forall|i: int| 0 <= i < items.len() && valid_utf8(#[trigger] items[i]) ==> utf8_lossy(items[i]) == decode_utf8(items[i])
}

/// The texts of a list of strings.
pub open spec fn string_views(v: Seq<String>) -> Seq<Seq<char>> {
    v.map_values(|s: String| s@)
}

impl Out {
    /// Whether results are collected as text.
    pub open spec fn is_results(&self) -> bool {
        self is Results
    }

    /// The texts collected so far.
    pub open spec fn results_view(&self) -> Seq<Seq<char>> {
        match self {
            Out::Results(v) => string_views(v@),
            Out::Writer(_) => Seq::<Seq<char>>::empty(),
        }
    }

    /// The bytes written and not yet taken.
    pub open spec fn written(&self) -> Seq<u8> {
        match self {
            Out::Results(_) => Seq::<u8>::empty(),
            Out::Writer(w) => w@,
        }
    }

    /// An output that collects results when `get` is set, and otherwise
    /// writes them to standard output.
    pub fn new(get: bool) -> (o: Out)
        ensures
            o.is_results() == get,
            o.results_view() == Seq::<Seq<char>>::empty(),
            o.written() == Seq::<u8>::empty(),
    {
        if get {
            let o = Out::Results(Vec::new());
            proof {
                assert(o.results_view() =~= Seq::<Seq<char>>::empty());
            }
            o
        } else {
            Out::Writer(create_stdout_buf_write())
        }
    }

    /// Collects the result as text, or writes it followed by a newline.
    pub fn push_or_write(&mut self, bytes: &[u8])
        ensures
            final(self).is_results() == old(self).is_results(),
            old(self).is_results() ==> final(self).results_view() == old(self).results_view().push(utf8_lossy(bytes@)),
            !old(self).is_results() ==> final(self).written() == old(self).written() + bytes@ + seq![NEWLINE],
            out_extended(*old(self), *final(self), seq![bytes@]),
    {
        match self {
            Out::Results(results) => {
                let text = lossy_string(bytes);
                let ghost before = results@;
                results.push(text);
                proof {
                    assert(string_views(results@) =~= string_views(before).push(utf8_lossy(bytes@)));
                    assert(lossy_texts(seq![bytes@]) =~= seq![utf8_lossy(bytes@)]);
                    assert(string_views(results@) =~= string_views(before) + lossy_texts(seq![bytes@]));
                    assert(valid_texts_decoded(seq![bytes@])) by {
                        assert forall|i: int| 0 <= i < 1 && valid_utf8(#[trigger] seq![bytes@][i])
                            implies utf8_lossy(seq![bytes@][i]) == decode_utf8(seq![bytes@][i]) by {
                            assert(seq![bytes@][i] == bytes@);
                        }
                    }
                }
            },
            Out::Writer(writer) => {
                writer.write_all_with_newline(bytes);
                proof {
                    crate::lines::lemma_each_on_own_line_one(bytes@);
                    assert(writer@ =~= old(self).written() + each_on_own_line(seq![bytes@]));
                }
            },
        }
    }

    /// A copy of the collected texts, or `None` when results are written.
    pub fn get_results(&self) -> (r: Option<Vec<String>>)
        ensures
            self.is_results() ==> (r matches Some(v) && string_views(v@) == self.results_view()),
            !self.is_results() ==> r is None,
    {
        match self {
            Out::Results(results) => {
                let mut v: Vec<String> = Vec::new();
                let mut i: usize = 0;
                while i < results.len()
                    invariant
                        i <= results@.len(),
                        string_views(v@) == string_views(results@.take(i as int)),
                    decreases results@.len() - i,
                {
                    let s = results[i].clone();
                    let ghost before = v@;
                    v.push(s);
                    proof {
                        assert(string_views(v@) =~= string_views(before).push(results@[i as int]@));
                        assert(results@.take(i + 1) =~= results@.take(i as int).push(results@[i as int]));
                        assert(string_views(results@.take(i + 1)) =~= string_views(results@.take(i as int)).push(results@[i as int]@));
                    }
                    i = i + 1;
                }
                proof {
                    assert(results@.take(results@.len() as int) =~= results@);
                }
                Some(v)
            },
            Out::Writer(_) => None,
        }
    }

    /// Hands out the bytes written so far (nothing when results are
    /// collected), for them to be sent to standard output.
    pub fn take_written(&mut self) -> (bytes: Vec<u8>)
        ensures
            bytes@ == old(self).written(),
            final(self).written() == Seq::<u8>::empty(),
            final(self).is_results() == old(self).is_results(),
            final(self).results_view() == old(self).results_view(),
    {
        match self {
            Out::Results(_) => Vec::new(),
            Out::Writer(writer) => flush(writer),
        }
    }
}

/// `after` is `before` with the results `items` handed to it in order.
pub open spec fn out_extended(before: Out, after: Out, items: Seq<Seq<u8>>) -> bool {
    &&& after.is_results() == before.is_results()
    &&& before.is_results() ==> after.results_view() == before.results_view() + lossy_texts(items)
        && valid_texts_decoded(items)
    &&& !before.is_results() ==> after.written() == before.written() + each_on_own_line(items)
        && after.results_view() == before.results_view()
}

/// Handing out results one list after another is handing out the lists
/// joined.
pub proof fn lemma_out_extended_trans(a: Out, b: Out, c: Out, x: Seq<Seq<u8>>, y: Seq<Seq<u8>>)
    requires
        out_extended(a, b, x),
        out_extended(b, c, y),
    ensures
        out_extended(a, c, x + y),
{
    assert(lossy_texts(x + y) =~= lossy_texts(x) + lossy_texts(y));
    crate::lines::lemma_each_on_own_line_append(x, y);
    if a.is_results() {
        assert forall|i: int| 0 <= i < (x + y).len() && valid_utf8(#[trigger] (x + y)[i])
            implies utf8_lossy((x + y)[i]) == decode_utf8((x + y)[i]) by {
            if i < x.len() {
                assert((x + y)[i] == x[i]);
            } else {
                assert((x + y)[i] == y[i - x.len()]);
            }
        }
    }
    if a.is_results() {
        assert(c.results_view() =~= a.results_view() + lossy_texts(x + y));
    } else {
        assert(c.written() =~= a.written() + each_on_own_line(x + y));
    }
}

/// Handing an output no results leaves it as it is.
pub proof fn lemma_out_extended_refl(a: Out)
    ensures
        out_extended(a, a, Seq::<Seq<u8>>::empty()),
{
    assert(lossy_texts(Seq::<Seq<u8>>::empty()) =~= Seq::<Seq<char>>::empty());
    assert(a.results_view() + Seq::<Seq<char>>::empty() =~= a.results_view());
    assert(a.written() + each_on_own_line(Seq::<Seq<u8>>::empty()) =~= a.written());
}

/// Collecting results keeps each result's text, in order: an output that
/// collects and holds nothing yet, once handed the results `items` (one
/// `push_or_write` at a time, or by `push_all`), holds their texts in
/// order, and a result that is valid UTF-8 comes back as the text it
/// encodes, whose UTF-8 bytes are the result itself.
pub proof fn law_collected_results(before: Out, after: Out, items: Seq<Seq<u8>>)
    requires
        before.is_results(),
        before.results_view() == Seq::<Seq<char>>::empty(),
        out_extended(before, after, items),
    ensures
        after.results_view() == lossy_texts(items),
        forall|i: int| 0 <= i < items.len() && valid_utf8(#[trigger] items[i]) ==> {
            &&& after.results_view()[i] == decode_utf8(items[i])
            &&& encode_utf8(after.results_view()[i]) == items[i]
        },
{
    assert(before.results_view() + lossy_texts(items) =~= lossy_texts(items));
    assert forall|i: int| 0 <= i < items.len() && valid_utf8(#[trigger] items[i]) implies {
        &&& after.results_view()[i] == decode_utf8(items[i])
        &&& encode_utf8(after.results_view()[i]) == items[i]
    } by {
        vstd::utf8::decode_utf8_encode_utf8(items[i]);
    }
}

/// Hands each result of a match to the output, in order.
pub fn push_all(out: &mut Out, items: &Vec<&[u8]>)
    ensures
        out_extended(*old(out), *final(out), crate::matching::slice_views(items@)),
{
    let ghost start = *out;
    let mut k: usize = 0;
    proof {
        lemma_out_extended_refl(*out);
        assert(crate::matching::slice_views(items@.take(0)) =~= Seq::<Seq<u8>>::empty());
    }
    while k < items.len()
        invariant
            k <= items@.len(),
            out_extended(start, *out, crate::matching::slice_views(items@.take(k as int))),
        decreases items@.len() - k,
    {
        let ghost before = *out;
        let item: &[u8] = items[k];
        out.push_or_write(item);
        proof {
            let one = seq![item@];
            lemma_out_extended_trans(start, before, *out, crate::matching::slice_views(items@.take(k as int)), one);
            assert(crate::matching::slice_views(items@.take(k + 1)) =~= crate::matching::slice_views(items@.take(k as int)) + one);
        }
        k = k + 1;
    }
    proof {
        assert(items@.take(items@.len() as int) =~= items@);
    }
}

/// What a scanner works on: the input, the matcher, the prefix and suffix
/// that frame each line before matching, and whether results are collected
/// (`get`) or written.
pub struct ScanProperties<'a> {
    pub input: Input,
    pub prefix: &'a [u8],
    pub matcher: Matcher,
    pub suffix: &'a [u8],
    pub get: bool,
}

/// The results of matching one (framed) line: empty when nothing matches.
pub open spec fn line_items(matcher: Matcher, line: Seq<u8>) -> Seq<Seq<u8>> {
    match matcher.spec_best_match(line) {
        Some(items) => items,
        None => Seq::<Seq<u8>>::empty(),
    }
}

/// A line framed by the prefix and suffix.
pub open spec fn framed(prefix: Seq<u8>, line: Seq<u8>, suffix: Seq<u8>) -> Seq<u8> {
    prefix + line + suffix
}

/// The results of matching each line, framed, in order.
pub open spec fn framed_items(matcher: Matcher, prefix: Seq<u8>, suffix: Seq<u8>, lines: Seq<Seq<u8>>) -> Seq<Seq<u8>>
    decreases lines.len(),
{
    if lines.len() == 0 {
        Seq::<Seq<u8>>::empty()
    } else {
        framed_items(matcher, prefix, suffix, lines.drop_last()) + line_items(matcher, framed(prefix, lines.last(), suffix))
    }
}

/// The results of matching each line as it is, in order.
pub open spec fn plain_items(matcher: Matcher, lines: Seq<Seq<u8>>) -> Seq<Seq<u8>>
    decreases lines.len(),
{
    if lines.len() == 0 {
        Seq::<Seq<u8>>::empty()
    } else {
        plain_items(matcher, lines.drop_last()) + line_items(matcher, lines.last())
    }
}

/// Each line is matched with the prefix before it and the suffix after
/// it: the results for lines are, in order, the results of matching
/// `prefix + line + suffix` for each.
pub proof fn law_lines_matched_framed(matcher: Matcher, prefix: Seq<u8>, suffix: Seq<u8>, lines: Seq<Seq<u8>>)
    ensures
        framed_items(matcher, prefix, suffix, lines)
            == plain_items(matcher, lines.map_values(|l: Seq<u8>| prefix + l + suffix)),
    decreases lines.len(),
{
    if lines.len() > 0 {
        law_lines_matched_framed(matcher, prefix, suffix, lines.drop_last());
        let f = |l: Seq<u8>| prefix + l + suffix;
        assert(lines.map_values(f).drop_last() =~= lines.drop_last().map_values(f));
        assert(lines.map_values(f).last() == prefix + lines.last() + suffix);
    } else {
        assert(lines.map_values(|l: Seq<u8>| prefix + l + suffix) =~= Seq::<Seq<u8>>::empty());
    }
}

/// The results of the lines of two runs are those of their concatenation.
pub proof fn lemma_framed_items_append(matcher: Matcher, prefix: Seq<u8>, suffix: Seq<u8>, a: Seq<Seq<u8>>, b: Seq<Seq<u8>>)
    ensures
        framed_items(matcher, prefix, suffix, a + b) == framed_items(matcher, prefix, suffix, a) + framed_items(matcher, prefix, suffix, b),
    decreases b.len(),
{
    if b.len() == 0 {
        assert(a + b =~= a);
        assert(framed_items(matcher, prefix, suffix, a) + Seq::<Seq<u8>>::empty() =~= framed_items(matcher, prefix, suffix, a));
    } else {
        lemma_framed_items_append(matcher, prefix, suffix, a, b.drop_last());
        assert((a + b).drop_last() =~= a + b.drop_last());
        assert((a + b).last() == b.last());
        assert(framed_items(matcher, prefix, suffix, a + b) =~= framed_items(matcher, prefix, suffix, a) + framed_items(matcher, prefix, suffix, b));
    }
}

pub proof fn lemma_unframed(m: crate::matching::Matcher, p: Seq<u8>, s: Seq<u8>, lines: Seq<Seq<u8>>)
    requires
        p.len() == 0,
        s.len() == 0,
    ensures
        framed_items(m, p, s, lines) == plain_items(m, lines),
    decreases lines.len(),
{
    if lines.len() > 0 {
        lemma_unframed(m, p, s, lines.drop_last());
        assert(framed(p, lines.last(), s) =~= lines.last());
    }
}

pub proof fn lemma_empty_keyword_items(k: Vec<u8>, lines: Seq<Seq<u8>>)
    requires
        k@.len() == 0,
    ensures
        plain_items(Matcher::Keyword(k), lines) == lines,
    decreases lines.len(),
{
    if lines.len() > 0 {
        lemma_empty_keyword_items(k, lines.drop_last());
        assert(occurs_at(lines.last(), k@, 0)) by {
            assert(lines.last().subrange(0, 0) =~= k@);
        }
        assert(lines.drop_last().push(lines.last()) =~= lines);
    }
}

/// `prefix`, `line` and `suffix`, one after another, in a new buffer.
pub fn concat3(prefix: &[u8], line: &[u8], suffix: &[u8]) -> (r: Vec<u8>)
    ensures
        r@ == framed(prefix@, line@, suffix@),
{
    let mut w = crate::utils::write_util::create_buf_write();
    crate::utils::write_util::write_all(&mut w, prefix);
    crate::utils::write_util::write_all(&mut w, line);
    crate::utils::write_util::write_all(&mut w, suffix);
    flush(&mut w)
}

/// Scanners match lines through their properties' matcher.
pub trait Scanner {
    /// Matches `line` with the properties' matcher.
    fn match_line<'a>(&self, scan_properties: &'a ScanProperties<'a>, line: &'a [u8]) -> (r: Option<MatchStrategyIterator<'a>>)
        ensures
            r is Some <==> scan_properties.matcher.spec_best_match(line@) is Some,
            r matches Some(it) ==> Some(it.remaining()) == scan_properties.matcher.spec_best_match(line@),
    {
        scan_properties.matcher.best_match(line)
    }
}

/// Matches `line` and hands every result to the output.
pub fn scan_line<S: Scanner>(scanner: &S, scan_properties: &ScanProperties, line: &[u8], out: &mut Out)
    ensures
        out_extended(*old(out), *final(out), line_items(scan_properties.matcher, line@)),
{
    match scanner.match_line(scan_properties, line) {
        Some(it) => {
            let items = it.collect_all();
            push_all(out, &items);
        },
        None => {
            proof {
                lemma_out_extended_refl(*out);
            }
        },
    }
}

/// A choice of how to divide the work and where to run it.
pub struct ScanMethod {
    concurrency_method: ConcurrencyMethod,
    concurrency_provider: ConcurrencyProvider,
}

impl ScanMethod {
    /// How the input is divided.
    pub closed spec fn method(&self) -> ConcurrencyMethod {
        self.concurrency_method
    }

    /// Where the work runs.
    pub closed spec fn provider(&self) -> ConcurrencyProvider {
        self.concurrency_provider
    }

    /// The choice of `method` and `provider`.
    pub fn new(method: ConcurrencyMethod, provider: ConcurrencyProvider) -> (s: ScanMethod)
        ensures
            s.method() == method,
            s.provider() == provider,
    {
        ScanMethod { concurrency_method: method, concurrency_provider: provider }
    }
}

/// A scanner chosen by `ScannerBuilder::new`.
pub enum BuiltScanner {
    NoneScanner(NoneScanner),
    RayonScanner(RayonScanner),
    StdThreadScanner(StdThreadScanner),
}

/// Chooses the scanner for a scan method.
pub struct ScannerBuilder {}

impl ScannerBuilder {
    /// The scanner for `scan_method`: the sequential scanner for no
    /// concurrency; for splitting or chunking, the scanner of the provider,
    /// set to that method.
    pub fn new(scan_method: ScanMethod) -> (s: BuiltScanner)
        ensures
            scan_method.method() == ConcurrencyMethod::Sequential ==> s is NoneScanner,
            scan_method.method() != ConcurrencyMethod::Sequential && scan_method.provider() == ConcurrencyProvider::Rayon
                ==> (s matches BuiltScanner::RayonScanner(r) && r.method == scan_method.method()),
            scan_method.method() != ConcurrencyMethod::Sequential && scan_method.provider() == ConcurrencyProvider::StdThread
                ==> (s matches BuiltScanner::StdThreadScanner(r) && r.method == scan_method.method()),
    {
        match scan_method.concurrency_method {
            ConcurrencyMethod::Sequential => BuiltScanner::NoneScanner(NoneScanner {}),
            method => match scan_method.concurrency_provider {
                ConcurrencyProvider::Rayon => BuiltScanner::RayonScanner(RayonScanner { method }),
                ConcurrencyProvider::StdThread => BuiltScanner::StdThreadScanner(StdThreadScanner { method }),
            },
        }
    }
}

} // verus!
