use pyvoy::wsgi::errors::{split_log_lines, writelines_entry_of, ErrorsOutput};

#[test]
fn complete_lines_are_logged_without_buffering() {
    let mut out = ErrorsOutput::new();
    let (lines, n) = out.write(b"one\n\ntwo\n");
    assert_eq!(lines, vec![b"one".to_vec(), b"two".to_vec()]);
    assert_eq!(n, 9);
    assert!(out.buffer.is_empty());
}

#[test]
fn partial_lines_wait_for_their_end() {
    let mut out = ErrorsOutput::new();
    let (lines, n) = out.write(b"par");
    assert!(lines.is_empty());
    assert_eq!(n, 3);
    let (lines, _) = out.write(b"tial\nnext");
    assert_eq!(lines, vec![b"partial".to_vec()]);
    assert_eq!(out.buffer, b"next".to_vec());
    let (lines, _) = out.write(b" line\n");
    assert_eq!(lines, vec![b"next line".to_vec()]);
    assert!(out.buffer.is_empty());
}

#[test]
fn flush_logs_the_partial_line() {
    let mut out = ErrorsOutput::new();
    out.write(b"dangling");
    assert_eq!(out.flush(), vec![b"dangling".to_vec()]);
    assert!(out.buffer.is_empty());
    assert!(out.flush().is_empty());
}

#[test]
fn empty_write_logs_nothing() {
    let mut out = ErrorsOutput::new();
    let (lines, n) = out.write(b"");
    assert!(lines.is_empty());
    assert_eq!(n, 0);
}

#[test]
fn writelines_drops_one_trailing_newline() {
    assert_eq!(writelines_entry_of(b"a line\n"), Some(b"a line".to_vec()));
    assert_eq!(writelines_entry_of(b"no newline"), Some(b"no newline".to_vec()));
    assert_eq!(writelines_entry_of(b"\n"), Some(Vec::new()));
    assert_eq!(writelines_entry_of(b""), None);
}

#[test]
fn log_lines_skip_empty_pieces() {
    assert_eq!(split_log_lines(b"\na\n\nb"), vec![b"a".to_vec(), b"b".to_vec()]);
}
