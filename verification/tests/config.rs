use litephoton::argument_parser::Arguments;
use litephoton::chunks::chunk_bounds;
use litephoton::common::{Method, ReadInputError};
use litephoton::environment::Environment;
use litephoton::input::{FileInput, Input, InputBuilder, InputType};
use litephoton::parse::ParseError;
use litephoton::utils::stdout_util::{write_each_on_own_line, BufWriterImpl};
use litephoton::utils::string_util::{create_line_buf, create_read_buf};
use litephoton::utils::write_util::{create_buf_write, flush, write_all};

fn args() -> Arguments {
    Arguments {
        config: false,
        debug: true,
        bypass_stdin_check: false,
        stable: true,
        dedup: false,
        file: vec!["a.txt".to_string()],
        keyword: "key".to_string(),
        regex: "".to_string(),
        prefix: "".to_string(),
        suffix: "".to_string(),
        method: "SPLIT".to_string(),
        provider: "StdThread".to_string(),
    }
}

#[test]
fn lowercase_lowers_method_and_provider_only() {
    let a = args().lowercase();
    assert_eq!(a.method, "split");
    assert_eq!(a.provider, "stdthread");
    assert_eq!(a.keyword, "key");
    assert_eq!(a.file, vec!["a.txt".to_string()]);
    assert!(a.debug && a.stable && !a.dedup);
}

#[test]
fn environment_is_set_up_once() {
    let mut cell: Option<Environment> = None;
    Environment::setup(&mut cell, &args());
    let mut other = args();
    other.keyword = "other".to_string();
    Environment::setup(&mut cell, &other);
    let e = cell.unwrap();
    assert_eq!(e.keyword, "key");
    assert_eq!(e.method, "SPLIT");
    assert_eq!(e.file, vec!["a.txt".to_string()]);
    assert!(e.debug && e.stable);
}

#[test]
fn method_parses_lowercase_names() {
    assert_eq!(Method::from_str("simple"), Ok(Method::Simple));
    assert_eq!(Method::from_str("rayon"), Ok(Method::Rayon));
    assert_eq!(Method::from_str("stdthread"), Ok(Method::StdThread));
    assert_eq!(Method::from_str("Rayon"), Err(ParseError::VariantNotFound));
}

#[test]
fn map_errors_have_messages() {
    assert_eq!(ReadInputError::CannotMapStdin.message(), "Could map stdin.");
    assert_eq!(ReadInputError::EmptyFile.message(), "The file is empty.");
}

#[test]
fn inputs_and_paths() {
    let i = InputBuilder::new(InputType::File("x.txt".to_string()));
    assert!(!i.is_stdin());
    assert_eq!(i.path(), Some("x.txt"));
    assert_eq!(i.clone().path(), Some("x.txt"));
    let s = InputBuilder::new(InputType::Stdin);
    assert!(s.is_stdin());
    assert_eq!(s.path(), None);
    assert!(matches!(s, Input::Stdin(())));
    assert_eq!(FileInput::new("y".to_string()).path(), "y");
}

#[test]
fn chunk_bounds_move_to_line_starts() {
    let data: &[u8] = b"aa\nbb\ncc\ndd\n";
    assert_eq!(chunk_bounds(data, 2, 0), Some((0, 9)));
    assert_eq!(chunk_bounds(data, 2, 1), Some((9, 12)));
    assert_eq!(chunk_bounds(b"abcdef", 2, 1), None);
    assert_eq!(chunk_bounds(b"a\nb\n", 8, 0), Some((0, 2)));
    assert_eq!(chunk_bounds(b"a\nb\n", 8, 3), Some((2, 2)));
    assert_eq!(chunk_bounds(b"a\nb\n", 8, 7), Some((2, 4)));
    assert_eq!(chunk_bounds(b"abcdef", 2, 0), Some((0, 6)));
}

#[test]
fn buffers() {
    let r = create_read_buf();
    assert_eq!(r.len(), 256 * 1024);
    assert!(r.iter().all(|&b| b == 0));
    assert!(create_line_buf().is_empty());
    let mut w = create_buf_write();
    write_all(&mut w, b"ab");
    w.write_all_with_newline(b"c");
    write_each_on_own_line(&mut w, &vec![&b"d"[..], &b""[..]]);
    assert_eq!(flush(&mut w), b"abc\nd\n\n".to_vec());
    assert!(flush(&mut w).is_empty());
}
