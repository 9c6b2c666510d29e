use litephoton::common::{ReadInputError, ScanError};
use litephoton::input::print_input::{chunk, emit_line, input, simple, split, PrintRoutine};
use litephoton::input::Input;
use litephoton::matching::RegexError;
use litephoton::scan::{ConcurrencyMethod, ConcurrencyProvider};
use litephoton::stream::LineStream;
use litephoton::utils::write_util::{create_buf_write, flush};

fn file_input() -> Input {
    Input::File("data.txt".to_string())
}

#[test]
fn simple_file_without_filters_prints_contents() {
    let (out, r) = simple::file(b"", b"", &file_input(), b"a\nb");
    assert_eq!(out, b"a\nb\n".to_vec());
    assert_eq!(r, Ok(()));
    let (out, r) = simple::file(b"", b"", &file_input(), b"a\n\nb\n");
    assert_eq!(out, b"a\n\nb\n".to_vec());
    assert_eq!(r, Ok(()));
}

#[test]
fn simple_file_keyword_selects_lines() {
    let (out, r) = simple::file(b"b", b"", &file_input(), b"ab\ncd\nbb");
    assert_eq!(out, b"ab\nbb\n".to_vec());
    assert_eq!(r, Ok(()));
}

#[test]
fn simple_file_regex_prints_matched_parts() {
    let (out, r) = simple::file(b"", b"[0-9]+", &file_input(), b"a1\nb22c3\nd");
    assert_eq!(out, b"1\n22\n3\n".to_vec());
    assert_eq!(r, Ok(()));
}

#[test]
fn simple_file_keyword_and_regex_both_print() {
    let (out, r) = simple::file(b"a", b"[0-9]", &file_input(), b"a1\nb2\n");
    assert_eq!(out, b"a1\n1\n2\n".to_vec());
    assert_eq!(r, Ok(()));
}

#[test]
fn simple_file_refuses_stdin() {
    let (out, r) = simple::file(b"", b"", &Input::Stdin(()), b"a\n");
    assert!(out.is_empty());
    assert_eq!(r, Err(ScanError::Read(ReadInputError::CannotMapStdin)));
}

#[test]
fn simple_file_stops_at_invalid_regex() {
    let (out, r) = simple::file(b"a", b"(", &file_input(), b"ab\ncd\n");
    assert_eq!(out, b"ab\n".to_vec());
    assert_eq!(r, Err(ScanError::Regex(RegexError::Invalid)));
    let (out, r) = simple::file(b"a", b"(", &file_input(), b"");
    assert!(out.is_empty());
    assert_eq!(r, Ok(()));
}

#[test]
fn simple_stdin_prints_as_file() {
    let data: &[u8] = b"x1\nyy\nz3";
    let (whole, _) = simple::file(b"y", b"[0-9]", &file_input(), data);
    let mut stream = LineStream::new();
    let (a, ra) = simple::stdin_feed(b"y", b"[0-9]", &mut stream, &data[..4]);
    let (b, rb) = simple::stdin_feed(b"y", b"[0-9]", &mut stream, &data[4..]);
    let (c, rc) = simple::stdin_finish(b"y", b"[0-9]", stream);
    assert_eq!((ra, rb, rc), (Ok(()), Ok(()), Ok(())));
    assert_eq!([a, b, c].concat(), whole);
    assert_eq!(whole, b"1\nyy\n3\n".to_vec());
}

#[test]
fn simple_stdin_stops_at_invalid_regex() {
    let mut stream = LineStream::new();
    let (out, r) = simple::stdin_feed(b"q", b"(", &mut stream, b"q\nw\n");
    assert_eq!(out, b"q\n".to_vec());
    assert_eq!(r, Err(ScanError::Regex(RegexError::Invalid)));
}

#[test]
fn split_piece_output_cases() {
    assert_eq!(split::rayon::piece_output(b"", b"", b"abc"), b"abc\n".to_vec());
    assert_eq!(split::rayon::piece_output(b"b", b"", b"abc"), b"abc\n".to_vec());
    assert_eq!(split::rayon::piece_output(b"z", b"", b"abc"), Vec::<u8>::new());
    assert_eq!(split::rayon::piece_output(b"z", b"[bc]", b"abc"), b"b\nc\n".to_vec());
    assert_eq!(split::rayon::piece_output(b"", b"(", b"abc"), Vec::<u8>::new());
}

#[test]
fn split_file_gives_each_piece() {
    let outs = split::rayon::file(b"", b"", &file_input(), b"a\nb\n").unwrap();
    assert_eq!(outs, vec![b"a\n".to_vec(), b"b\n".to_vec()]);
    let outs = split::rayon::file(b"", b"", &file_input(), b"a\n\nb").unwrap();
    assert_eq!(outs, vec![b"a\n".to_vec(), b"\n".to_vec(), b"b\n".to_vec()]);
    assert_eq!(split::rayon::file(b"", b"", &file_input(), b""), Err(ScanError::Read(ReadInputError::EmptyFile)));
    assert_eq!(split::rayon::file(b"", b"", &Input::Stdin(()), b"a"), Err(ScanError::Read(ReadInputError::CannotMapStdin)));
}

#[test]
fn chunk_worker_prints_its_chunk() {
    let data: &[u8] = b"aa\nbb\ncc\ndd\n";
    assert_eq!(chunk::worker(b"", b"", data, 2, 0), b"aa\nbb\ncc\n".to_vec());
    assert_eq!(chunk::worker(b"", b"", data, 2, 1), b"dd\n".to_vec());
    assert_eq!(chunk::worker(b"", b"", b"a\nb", 8, 3), Vec::<u8>::new());
}

#[test]
fn chunk_file_gives_each_worker() {
    let data: &[u8] = b"a\nb\nc\nd";
    let outs = chunk::file(b"", b"", &file_input(), data, 4).unwrap();
    assert_eq!(outs, vec![b"a\n".to_vec(), b"b\n".to_vec(), vec![], b"c\nd\n".to_vec()]);
    let outs = chunk::file(b"c", b"(", &file_input(), data, 4).unwrap();
    assert_eq!(outs.concat(), b"c\n".to_vec());
    let outs = chunk::rayon::file(b"b", b"", &file_input(), data, 4).unwrap();
    assert_eq!(outs.concat(), b"b\n".to_vec());
    let outs = chunk::stdthread::file(b"", b"[ac]", &file_input(), data, 4).unwrap();
    assert_eq!(outs.concat(), b"a\nc\n".to_vec());
    assert_eq!(chunk::file(b"", b"", &file_input(), b"", 4), Err(ScanError::Read(ReadInputError::EmptyFile)));
    assert_eq!(chunk::file(b"", b"", &Input::Stdin(()), b"a", 4), Err(ScanError::Read(ReadInputError::CannotMapStdin)));
}

#[test]
fn input_chooses_routine() {
    let f = file_input();
    let s = Input::Stdin(());
    assert_eq!(input(ConcurrencyMethod::Chunk, ConcurrencyProvider::Rayon, &s, false), PrintRoutine::SimpleStdin);
    assert_eq!(input(ConcurrencyMethod::Sequential, ConcurrencyProvider::Rayon, &f, false), PrintRoutine::SimpleFile);
    assert_eq!(input(ConcurrencyMethod::Split, ConcurrencyProvider::Rayon, &f, true), PrintRoutine::SplitRayon);
    assert_eq!(input(ConcurrencyMethod::Split, ConcurrencyProvider::StdThread, &f, true), PrintRoutine::SplitStdThread);
    assert_eq!(input(ConcurrencyMethod::Chunk, ConcurrencyProvider::Rayon, &f, false), PrintRoutine::ChunkRayon);
    assert_eq!(input(ConcurrencyMethod::Chunk, ConcurrencyProvider::StdThread, &f, false), PrintRoutine::ChunkStdThread);
}

#[test]
fn emit_line_writes_shown_and_matched_parts() {
    let mut w = create_buf_write();
    assert_eq!(emit_line(&mut w, b"", b"", b"abc", true), Ok(()));
    assert_eq!(emit_line(&mut w, b"b", b"[ac]", b"abc\n", false), Ok(()));
    assert_eq!(flush(&mut w), b"abc\nabc\na\nc\n".to_vec());
    assert_eq!(emit_line(&mut w, b"b", b"(", b"abc", true), Err(RegexError::Invalid));
    assert_eq!(flush(&mut w), b"abc\n".to_vec());
}
