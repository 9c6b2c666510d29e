use litephoton::input::print_input::{chunk, simple, split};
use litephoton::input::Input;
use litephoton::matching::Matcher;
use litephoton::read_util::{read_file, read_file_chunk, read_stdin};
use litephoton::scan::{ConcurrencyMethod, NoneScanner, Out, RayonScanner, ScanProperties, StdThreadScanner};

fn file() -> Input {
    Input::File("f".to_string())
}

fn newline_terminated(data: &[u8]) -> Vec<u8> {
    let mut v = data.to_vec();
    if !v.is_empty() && *v.last().unwrap() != b'\n' {
        v.push(b'\n');
    }
    v
}

const SAMPLES: [&[u8]; 7] = [b"", b"\n", b"a", b"a\nb", b"ab\n\ncd\n", b"x\ny\nz\n\n", b"a\n\nb\n"];

fn props(matcher: Matcher, prefix: &'static [u8], suffix: &'static [u8]) -> ScanProperties<'static> {
    ScanProperties { input: file(), prefix, matcher, suffix, get: true }
}

#[test]
fn plain_printing_without_filters_prints_contents() {
    for data in SAMPLES {
        let (out, r) = simple::file(b"", b"", &file(), data);
        assert_eq!(r, Ok(()));
        assert_eq!(out, newline_terminated(data));
    }
}

#[test]
fn plain_printing_with_keyword_prints_containing_lines() {
    let data: &[u8] = b"apple\nbanana\ncherry\npineapple";
    let (out, _) = simple::file(b"apple", b"", &file(), data);
    assert_eq!(out, b"apple\npineapple\n".to_vec());
    let (out, _) = simple::file(b"an", b"", &file(), data);
    assert_eq!(out, b"banana\n".to_vec());
}

#[test]
fn stdin_printing_in_any_reads_matches_file_printing() {
    for data in SAMPLES {
        for (kw, re) in [(&b""[..], &b""[..]), (&b"a"[..], &b"[bx]"[..]), (&b"b"[..], &b"("[..])] {
            let expected = simple::file(kw, re, &file(), data);
            for cut in 0..=data.len() {
                let reads = vec![data[..cut].to_vec(), data[cut..].to_vec()];
                assert_eq!(simple::stdin(kw, re, &reads), expected);
            }
        }
    }
}

#[test]
fn split_printing_without_filters_prints_contents() {
    for data in SAMPLES {
        if data.is_empty() {
            continue;
        }
        let outs = split::rayon::file(b"", b"", &file(), data).unwrap();
        assert_eq!(outs.concat(), newline_terminated(data));
    }
}

#[test]
fn split_printing_with_keyword_matches_plain_printing() {
    for data in SAMPLES {
        if data.is_empty() {
            continue;
        }
        for kw in [&b"a"[..], &b"b"[..], &b"z"[..], &b"q"[..]] {
            let outs = split::rayon::file(kw, b"", &file(), data).unwrap();
            let (plain, _) = simple::file(kw, b"", &file(), data);
            assert_eq!(outs.concat(), plain);
        }
    }
}

#[test]
fn chunked_printing_matches_plain_printing() {
    for data in SAMPLES {
        if data.is_empty() {
            continue;
        }
        for n in 1usize..=9 {
            for (kw, re) in [(&b""[..], &b""[..]), (&b"a"[..], &b"[bz]"[..]), (&b"y"[..], &b""[..])] {
                let outs = chunk::file(kw, re, &file(), data, n).unwrap();
                let (plain, _) = simple::file(kw, re, &file(), data);
                assert_eq!(outs.concat(), plain);
            }
        }
    }
    let outs = chunk::file(b"", b"", &file(), b"ab\ncd\n", 2).unwrap();
    assert_eq!(outs.concat(), b"ab\ncd\n".to_vec());
}

#[test]
fn chunked_reading_matches_whole_reading() {
    for data in SAMPLES {
        if data.is_empty() {
            continue;
        }
        for n in 1usize..=9 {
            for kw in [&b""[..], &b"a"[..], &b"b"[..]] {
                let outs = read_file_chunk(kw, &file(), data, n).unwrap();
                assert_eq!(outs.concat(), read_file(kw, data));
            }
        }
    }
    assert_eq!(read_file(b"", b"a\n\nb\n"), b"a\n\nb\n".to_vec());
}

#[test]
fn stdin_reading_in_any_reads_matches_file_reading() {
    for data in SAMPLES {
        for kw in [&b""[..], &b"a"[..], &b"b"[..]] {
            for cut in 0..=data.len() {
                let reads = vec![data[..cut].to_vec(), data[cut..].to_vec()];
                assert_eq!(read_stdin(kw, &reads), read_file(kw, data));
            }
        }
    }
    assert_eq!(read_stdin(b"a", &vec![b"a\nb".to_vec()]), b"a\n".to_vec());
}

#[test]
fn chunk_scan_matches_sequential_scan() {
    for data in SAMPLES {
        for n in 1usize..=9 {
            let p = props(Matcher::Keyword(b"".to_vec()), b"<", b">");
            let (sequential, _) = NoneScanner {}.scan(&p, &vec![data.to_vec()]);
            let (chunked, _) = StdThreadScanner { method: ConcurrencyMethod::Chunk }.scan(&p, data, n);
            assert_eq!(chunked, sequential);
            let (chunked, _) = RayonScanner { method: ConcurrencyMethod::Chunk }.scan(&p, data, n);
            assert_eq!(chunked, sequential);
        }
    }
}

#[test]
fn split_scan_matches_sequential_scan() {
    for data in SAMPLES {
        let p = props(Matcher::Keyword(b"".to_vec()), b"", b"");
        let (sequential, _) = NoneScanner {}.scan(&p, &vec![data.to_vec()]);
        let (split, _) = RayonScanner { method: ConcurrencyMethod::Split }.scan(&p, data, 1);
        assert_eq!(split, sequential);
        let (split, _) = StdThreadScanner { method: ConcurrencyMethod::Split }.scan(&p, data, 1);
        assert_eq!(split, sequential);
    }
}

#[test]
fn split_scan_frames_lines_as_sequential_scan_does() {
    let p = props(Matcher::Keyword(b"".to_vec()), b"<", b">");
    for scanner_method in [ConcurrencyMethod::Split] {
        let (r, _) = RayonScanner { method: scanner_method }.scan(&p, b"a\nb\n", 1);
        assert_eq!(r, Some(vec!["<a>".to_string(), "<b>".to_string()]));
        let (r, _) = StdThreadScanner { method: scanner_method }.scan(&p, b"a\nb\n", 2);
        assert_eq!(r, Some(vec!["<a>".to_string(), "<b>".to_string()]));
    }
    let p = props(Matcher::Keyword(b"<".to_vec()), b"<", b"");
    let (split, _) = RayonScanner { method: ConcurrencyMethod::Split }.scan(&p, b"a", 1);
    let (sequential, _) = NoneScanner {}.scan(&p, &vec![b"a".to_vec()]);
    assert_eq!(split, Some(vec!["<a".to_string()]));
    assert_eq!(split, sequential);
    for data in SAMPLES {
        let p = props(Matcher::Keyword(b"b".to_vec()), b"[", b"]");
        let (sequential, _) = NoneScanner {}.scan(&p, &vec![data.to_vec()]);
        let (split, _) = RayonScanner { method: ConcurrencyMethod::Split }.scan(&p, data, 1);
        assert_eq!(split, sequential);
    }
}

#[test]
fn collected_results_keep_each_text_in_order() {
    let mut o = Out::new(true);
    let items: [&[u8]; 4] = [b"plain", "h\u{e9}llo".as_bytes(), b"", b"bad\xffbyte"];
    for b in items {
        o.push_or_write(b);
    }
    let texts = o.get_results().unwrap();
    assert_eq!(texts.len(), 4);
    for i in 0..3 {
        assert_eq!(texts[i].as_bytes(), items[i]);
    }
    assert_eq!(texts[3], "bad\u{FFFD}byte");
}
