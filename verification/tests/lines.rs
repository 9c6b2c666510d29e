use litephoton::lines::{split_spans, with_newline};
use litephoton::search::find_keyword;
use litephoton::parse::str_eq;
use litephoton::stream::LineStream;

#[test]
fn split_spans_of_two_lines() {
    let data = b"ab\ncd";
    assert_eq!(split_spans(data), vec![(0, 2), (3, 5)]);
}

#[test]
fn split_spans_of_empty_input_is_one_empty_piece() {
    assert_eq!(split_spans(b""), vec![(0, 0)]);
}

#[test]
fn split_spans_after_final_newline_has_empty_piece() {
    assert_eq!(split_spans(b"a\n"), vec![(0, 1), (2, 2)]);
    assert_eq!(split_spans(b"\n\n"), vec![(0, 0), (1, 1), (2, 2)]);
}

#[test]
fn split_spans_rejoined_give_the_input() {
    let data: &[u8] = b"one\n\ntwo\nthree";
    let spans = split_spans(data);
    let pieces: Vec<&[u8]> = spans.iter().map(|&(s, e)| &data[s..e]).collect();
    assert_eq!(pieces.join(&b'\n'), data.to_vec());
    assert!(pieces.iter().all(|p| !p.contains(&b'\n')));
}

#[test]
fn with_newline_appends_one_newline() {
    assert_eq!(with_newline(b"ab"), b"ab\n".to_vec());
    assert_eq!(with_newline(b""), b"\n".to_vec());
}

#[test]
fn find_keyword_is_substring_search() {
    assert!(find_keyword(b"hello world", b"o w"));
    assert!(!find_keyword(b"hello world", b"ow"));
    assert!(find_keyword(b"abc", b""));
    assert!(!find_keyword(b"", b"a"));
    assert!(find_keyword(b"abc", b"abc"));
    assert!(!find_keyword(b"ab", b"abc"));
}

#[test]
fn str_eq_compares_characters() {
    assert!(str_eq("chunk", "chunk"));
    assert!(!str_eq("chunk", "Chunk"));
    assert!(!str_eq("chunk", "chun"));
    assert!(str_eq("", ""));
}

#[test]
fn stream_hands_out_completed_lines() {
    let mut s = LineStream::new();
    assert_eq!(s.feed(b"ab\ncd"), vec![b"ab".to_vec()]);
    assert_eq!(s.feed(b"e\nf"), vec![b"cde".to_vec()]);
    assert_eq!(s.feed(b""), Vec::<Vec<u8>>::new());
    assert_eq!(s.feed(b"\n\n"), vec![b"f".to_vec(), b"".to_vec()]);
    assert_eq!(s.finish(), Vec::<u8>::new());
}

#[test]
fn stream_keeps_unterminated_tail() {
    let mut s = LineStream::new();
    assert_eq!(s.feed(b"x"), Vec::<Vec<u8>>::new());
    assert_eq!(s.feed(b"y"), Vec::<Vec<u8>>::new());
    assert_eq!(s.finish(), b"xy".to_vec());
}

#[test]
fn stream_over_any_chunking_matches_whole_split() {
    let data: &[u8] = b"alpha\nbeta\n\ngamma\ndelta";
    for cut in 0..=data.len() {
        let mut s = LineStream::new();
        let mut lines = s.feed(&data[..cut]);
        lines.extend(s.feed(&data[cut..]));
        let tail = s.finish();
        let mut pieces: Vec<Vec<u8>> = lines;
        pieces.push(tail);
        let expected: Vec<Vec<u8>> = split_spans(data).iter().map(|&(a, b)| data[a..b].to_vec()).collect();
        assert_eq!(pieces, expected);
    }
}
