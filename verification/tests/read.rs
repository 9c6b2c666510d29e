use litephoton::input::Input;
use litephoton::parse::ParseError;
use litephoton::read_util::common::{Mode, ReadInputError};
use litephoton::read_util::{read_file, read_file_chunk, read_input, read_stdin_feed, read_stdin_finish, ReadRoutine};
use litephoton::stream::LineStream;

#[test]
fn read_file_reads_past_empty_lines() {
    assert_eq!(read_file(b"o", b"foo\nbar\nboo\n\nzoo\n"), b"foo\nboo\nzoo\n".to_vec());
    assert_eq!(read_file(b"", b"a\n\nb\n"), b"a\n\nb\n".to_vec());
}

#[test]
fn read_file_adds_newline_to_selected_tail() {
    assert_eq!(read_file(b"", b"ab\ncd"), b"ab\ncd\n".to_vec());
    assert_eq!(read_file(b"x", b"ab\ncd"), Vec::<u8>::new());
    assert_eq!(read_file(b"", b""), Vec::<u8>::new());
    assert_eq!(read_file(b"", b"\nab"), b"\nab\n".to_vec());
}

#[test]
fn read_file_chunk_gives_each_worker() {
    let f = Input::File("f".to_string());
    let outs = read_file_chunk(b"", &f, b"aa\nbb\ncc\ndd\n", 2).unwrap();
    assert_eq!(outs, vec![b"aa\nbb\ncc\n".to_vec(), b"dd\n".to_vec()]);
    let outs = read_file_chunk(b"b", &f, b"aa\nbb\ncc\ndd\n", 2).unwrap();
    assert_eq!(outs, vec![b"bb\n".to_vec(), vec![]]);
}

#[test]
fn read_file_chunk_errors() {
    assert_eq!(read_file_chunk(b"", &Input::Stdin(()), b"a\n", 2), Err(ReadInputError::CannotUseStdinWithChunkMode));
    assert_eq!(read_file_chunk(b"", &Input::File("f".to_string()), b"", 2), Err(ReadInputError::EmptyFile));
}

#[test]
fn read_stdin_selects_lines_and_ends_tail_with_newline() {
    let mut s = LineStream::new();
    assert_eq!(read_stdin_feed(b"x", &mut s, b"ax\nb"), b"ax\n".to_vec());
    assert_eq!(read_stdin_feed(b"x", &mut s, b"\ncx"), Vec::<u8>::new());
    assert_eq!(read_stdin_finish(b"x", s), b"cx\n".to_vec());
    let mut s = LineStream::new();
    assert_eq!(read_stdin_feed(b"z", &mut s, b"cx"), Vec::<u8>::new());
    assert_eq!(read_stdin_finish(b"z", s), Vec::<u8>::new());
    let s = LineStream::new();
    assert_eq!(read_stdin_finish(b"", s), Vec::<u8>::new());
}

#[test]
fn read_stdin_in_chunks_matches_one_read() {
    let data: &[u8] = b"k1\nk2\n\nx\nk3";
    let mut whole = LineStream::new();
    let mut expected = read_stdin_feed(b"k", &mut whole, data);
    expected.extend(read_stdin_finish(b"k", whole));
    for cut in 0..=data.len() {
        let mut s = LineStream::new();
        let mut got = read_stdin_feed(b"k", &mut s, &data[..cut]);
        got.extend(read_stdin_feed(b"k", &mut s, &data[cut..]));
        got.extend(read_stdin_finish(b"k", s));
        assert_eq!(got, expected);
    }
    assert_eq!(expected, b"k1\nk2\nk3\n".to_vec());
}

#[test]
fn mode_parses_lowercase_names() {
    assert_eq!(Mode::from_str("normal"), Ok(Mode::Normal));
    assert_eq!(Mode::from_str("chunk"), Ok(Mode::Chunk));
    assert_eq!(Mode::from_str("Chunk"), Err(ParseError::VariantNotFound));
    assert_eq!(Mode::from_str(""), Err(ParseError::VariantNotFound));
}

#[test]
fn read_input_chooses_reader() {
    let f = Input::File("f".to_string());
    assert_eq!(read_input(Mode::Normal, &Input::Stdin(())), ReadRoutine::Stdin);
    assert_eq!(read_input(Mode::Chunk, &Input::Stdin(())), ReadRoutine::Stdin);
    assert_eq!(read_input(Mode::Normal, &f), ReadRoutine::File);
    assert_eq!(read_input(Mode::Chunk, &f), ReadRoutine::FileChunk);
}

#[test]
fn read_errors_have_messages() {
    assert_eq!(ReadInputError::CannotUseStdinWithChunkMode.message(), "Could not use chunk mode while input is STDIN.");
    assert_eq!(ReadInputError::EmptyFile.message(), "The file is empty.");
}
