use litephoton::input::Input;
use litephoton::matching::{compile_regex, Matcher};
use litephoton::parse::ParseError;
use litephoton::scan::{
    concat3, push_all, BuiltScanner, ConcurrencyMethod, ConcurrencyProvider, NoneScanner, Out, RayonScanner,
    ScanMethod, ScanProperties, ScannerBuilder, StdThreadScanner,
};
use litephoton::stream::LineStream;

fn props<'a>(prefix: &'a [u8], matcher: Matcher, suffix: &'a [u8], get: bool) -> ScanProperties<'a> {
    ScanProperties { input: Input::File("f".to_string()), prefix, matcher, suffix, get }
}

#[test]
fn sequential_scan_collects_matching_lines() {
    let p = props(b"", Matcher::Keyword(b"b".to_vec()), b"", true);
    let reads = vec![b"ab\nc".to_vec(), b"d\nbe".to_vec()];
    let (results, written) = NoneScanner {}.scan(&p, &reads);
    assert_eq!(results, Some(vec!["ab".to_string(), "be".to_string()]));
    assert!(written.is_empty());
}

#[test]
fn sequential_scan_writes_matching_lines() {
    let p = props(b"", Matcher::Keyword(b"b".to_vec()), b"", false);
    let reads = vec![b"ab\nc".to_vec(), b"d\nbe".to_vec()];
    let (results, written) = NoneScanner {}.scan(&p, &reads);
    assert_eq!(results, None);
    assert_eq!(written, b"ab\nbe\n".to_vec());
}

#[test]
fn sequential_scan_frames_lines() {
    let p = props(b"<", Matcher::Keyword(b"<a".to_vec()), b">", true);
    let reads = vec![b"ab\ncd\n".to_vec()];
    let (results, _) = NoneScanner {}.scan(&p, &reads);
    assert_eq!(results, Some(vec!["<ab>".to_string()]));
}

#[test]
fn sequential_scan_with_regex_collects_parts() {
    let p = props(b"", Matcher::Regex(compile_regex("[0-9]+").unwrap()), b"", true);
    let reads = vec![b"a1b22\nc".to_vec()];
    let (results, _) = NoneScanner {}.scan(&p, &reads);
    assert_eq!(results, Some(vec!["1".to_string(), "22".to_string()]));
}

#[test]
fn sequential_scan_without_keyword_prints_contents() {
    for data in [&b"ab\ncd"[..], &b"ab\ncd\n"[..], &b""[..], &b"\n\nx"[..]] {
        let p = props(b"", Matcher::Keyword(Vec::new()), b"", false);
        let (_, written) = NoneScanner {}.scan(&p, &vec![data.to_vec()]);
        let mut expected = data.to_vec();
        if !expected.is_empty() && *expected.last().unwrap() != b'\n' {
            expected.push(b'\n');
        }
        assert_eq!(written, expected);
    }
}

#[test]
fn sequential_scan_in_pieces() {
    let p = props(b"", Matcher::Keyword(b"a".to_vec()), b"", false);
    let mut out = Out::new(false);
    let mut stream = LineStream::new();
    NoneScanner {}.scan_chunk(&p, &mut stream, &mut out, b"a1\nb");
    NoneScanner {}.scan_chunk(&p, &mut stream, &mut out, b"2\na3");
    NoneScanner {}.scan_end(&p, stream, &mut out);
    assert_eq!(out.take_written(), b"a1\na3\n".to_vec());
}

#[test]
fn split_scan_matches_every_piece() {
    let p = props(b"", Matcher::Keyword(Vec::new()), b"", false);
    let scanner = RayonScanner { method: ConcurrencyMethod::Split };
    let (results, written) = scanner.scan(&p, b"ab\ncd\n", 4);
    assert_eq!(results, None);
    assert_eq!(written, b"ab\ncd\n".to_vec());
    let p = props(b"", Matcher::Keyword(b"c".to_vec()), b"", true);
    let (results, _) = scanner.scan(&p, b"ab\ncd\nce", 4);
    assert_eq!(results, Some(vec!["cd".to_string(), "ce".to_string()]));
}

#[test]
fn split_scan_piece() {
    let p = props(b"", Matcher::Keyword(b"c".to_vec()), b"", true);
    let scanner = RayonScanner { method: ConcurrencyMethod::Split };
    let mut out = Out::new(true);
    scanner.scan_piece(&p, b"abc", &mut out);
    scanner.scan_piece(&p, b"ab", &mut out);
    assert_eq!(out.get_results(), Some(vec!["abc".to_string()]));
}

#[test]
fn stdthread_scan_gives_workers_in_order() {
    let data: &[u8] = b"aa\nbb\ncc\ndd\n";
    let p = props(b"[", Matcher::Keyword(Vec::new()), b"]", true);
    let scanner = StdThreadScanner { method: ConcurrencyMethod::Chunk };
    let (results, _) = scanner.scan(&p, data, 2);
    assert_eq!(results, Some(vec!["[aa]".to_string(), "[bb]".to_string(), "[cc]".to_string(), "[dd]".to_string()]));
    let mut out = Out::new(false);
    scanner.scan_worker(&p, data, 3, 9, &mut out);
    assert_eq!(out.take_written(), b"[bb]\n[cc]\n".to_vec());
    let mut out = Out::new(false);
    scanner.scan_worker(&p, b"aa\nbb", 3, 5, &mut out);
    assert_eq!(out.take_written(), b"[bb]\n".to_vec());
}

#[test]
fn stdthread_scan_with_more_threads_than_bytes() {
    let p = props(b"", Matcher::Keyword(Vec::new()), b"", true);
    let scanner = StdThreadScanner { method: ConcurrencyMethod::Chunk };
    let (results, _) = scanner.scan(&p, b"a\nb\n", 8);
    assert_eq!(results, Some(vec!["a".to_string(), "b".to_string()]));
    let (results, _) = scanner.scan(&p, b"a\nb", 3);
    assert_eq!(results, Some(vec!["a".to_string(), "b".to_string()]));
    let split = StdThreadScanner { method: ConcurrencyMethod::Split };
    let (results, _) = split.scan(&p, b"a\n\nb\n", 3);
    assert_eq!(results, Some(vec!["a".to_string(), "".to_string(), "b".to_string()]));
}

#[test]
fn out_collects_lossy_text_or_writes_lines() {
    let mut o = Out::new(true);
    o.push_or_write(b"x");
    o.push_or_write(b"\xff");
    assert_eq!(o.get_results(), Some(vec!["x".to_string(), "\u{FFFD}".to_string()]));
    assert!(o.take_written().is_empty());
    let mut o = Out::new(false);
    o.push_or_write(b"x");
    push_all(&mut o, &vec![&b"y"[..], &b"z"[..]]);
    assert_eq!(o.get_results(), None);
    assert_eq!(o.take_written(), b"x\ny\nz\n".to_vec());
    assert!(o.take_written().is_empty());
}

#[test]
fn concat3_joins_in_order() {
    assert_eq!(concat3(b"<", b"mid", b">"), b"<mid>".to_vec());
    assert_eq!(concat3(b"", b"", b""), Vec::<u8>::new());
}

#[test]
fn concurrency_names_parse_exactly() {
    assert_eq!(ConcurrencyMethod::from_str("none"), Ok(ConcurrencyMethod::Sequential));
    assert_eq!(ConcurrencyMethod::from_str("split"), Ok(ConcurrencyMethod::Split));
    assert_eq!(ConcurrencyMethod::from_str("chunk"), Ok(ConcurrencyMethod::Chunk));
    assert_eq!(ConcurrencyMethod::from_str("None"), Err(ParseError::VariantNotFound));
    assert_eq!(ConcurrencyProvider::from_str("rayon"), Ok(ConcurrencyProvider::Rayon));
    assert_eq!(ConcurrencyProvider::from_str("stdthread"), Ok(ConcurrencyProvider::StdThread));
    assert_eq!(ConcurrencyProvider::from_str("threads"), Err(ParseError::VariantNotFound));
}

#[test]
fn scanner_builder_chooses_scanner() {
    let s = ScannerBuilder::new(ScanMethod::new(ConcurrencyMethod::Sequential, ConcurrencyProvider::StdThread));
    assert!(matches!(s, BuiltScanner::NoneScanner(_)));
    let s = ScannerBuilder::new(ScanMethod::new(ConcurrencyMethod::Split, ConcurrencyProvider::Rayon));
    assert!(matches!(s, BuiltScanner::RayonScanner(RayonScanner { method: ConcurrencyMethod::Split })));
    let s = ScannerBuilder::new(ScanMethod::new(ConcurrencyMethod::Split, ConcurrencyProvider::StdThread));
    assert!(matches!(s, BuiltScanner::StdThreadScanner(StdThreadScanner { method: ConcurrencyMethod::Split })));
    let s = ScannerBuilder::new(ScanMethod::new(ConcurrencyMethod::Chunk, ConcurrencyProvider::Rayon));
    assert!(matches!(s, BuiltScanner::RayonScanner(RayonScanner { method: ConcurrencyMethod::Chunk })));
    let s = ScannerBuilder::new(ScanMethod::new(ConcurrencyMethod::Chunk, ConcurrencyProvider::StdThread));
    assert!(matches!(s, BuiltScanner::StdThreadScanner(StdThreadScanner { method: ConcurrencyMethod::Chunk })));
}
