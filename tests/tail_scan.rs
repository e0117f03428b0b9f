use filetail::tail::{last_line, lines_from_file, TailError};

fn strings(v: &[&str]) -> Vec<String> {
    v.iter().map(|s| s.to_string()).collect()
}

#[test]
fn unterminated_last_line_is_returned() {
    assert_eq!(lines_from_file(b"x\ny", 1), Ok(strings(&["y"])));
    assert_eq!(lines_from_file(b"abc", 1), Ok(strings(&["abc"])));
    assert_eq!(lines_from_file(b"abc", 3), Ok(strings(&["abc"])));
}

#[test]
fn lone_carriage_return_is_kept() {
    assert_eq!(lines_from_file(b"one\ntwo\r", 1), Ok(strings(&["two\r"])));
}

#[test]
fn empty_content_has_no_lines() {
    for n in [0usize, 1, 2, 5, 100] {
        assert_eq!(lines_from_file(b"", n), Ok(Vec::new()));
    }
}

#[test]
fn three_lines_last_first() {
    assert_eq!(lines_from_file(b"a\nb\nc", 1), Ok(strings(&["c"])));
    assert_eq!(lines_from_file(b"a\nb\nc", 2), Ok(strings(&["c", "b"])));
    assert_eq!(lines_from_file(b"a\nb\nc", 3), Ok(strings(&["c", "b", "a"])));
    assert_eq!(lines_from_file(b"a\nb\nc", 9), Ok(strings(&["c", "b", "a"])));
}

#[test]
fn zero_limit_yields_nothing() {
    assert_eq!(lines_from_file(b"a\nb\nc", 0), Ok(Vec::new()));
}

#[test]
fn trailing_newline_ends_the_last_line() {
    assert_eq!(lines_from_file(b"a\nb\n", 2), Ok(strings(&["b", "a"])));
    assert_eq!(lines_from_file(b"a\n\n", 2), Ok(strings(&["", "a"])));
    assert_eq!(lines_from_file(b"\n", 2), Ok(strings(&[""])));
}

#[test]
fn crlf_terminators_are_removed() {
    assert_eq!(lines_from_file(b"a\r\nb\r\n", 2), Ok(strings(&["b", "a"])));
}

#[test]
fn invalid_text_in_scanned_line_fails() {
    assert_eq!(lines_from_file(&[0x61, 0x0a, 0xff], 1), Err(TailError::InvalidText));
    assert_eq!(lines_from_file(&[0xff, 0x0a, 0x62], 2), Err(TailError::InvalidText));
}

#[test]
fn invalid_text_beyond_limit_is_not_read() {
    assert_eq!(lines_from_file(&[0xff, 0x0a, 0x62], 1), Ok(strings(&["b"])));
}

#[test]
fn multibyte_text_is_decoded() {
    assert_eq!(lines_from_file("x\nh\u{e9}llo \u{2603}\n".as_bytes(), 1), Ok(strings(&["h\u{e9}llo \u{2603}"])));
}

#[test]
fn long_line_across_buffer_chunks() {
    let mut content = vec![b'x'; 20000];
    content.push(b'\n');
    content.extend_from_slice(b"end");
    let lines = lines_from_file(&content, 2).unwrap();
    assert_eq!(lines.len(), 2);
    assert_eq!(lines[0], "end");
    assert_eq!(lines[1], "x".repeat(20000));
}

#[test]
fn last_line_of_empty_content_is_none() {
    assert_eq!(last_line(b""), Ok(None));
}

#[test]
fn last_line_reports_current_last_line() {
    assert_eq!(last_line(b"a\nb"), Ok(Some("b".to_string())));
    assert_eq!(last_line(b"start\n"), Ok(Some("start".to_string())));
}

#[test]
fn coalesced_appends_report_final_line() {
    let mut content = b"old\n".to_vec();
    content.extend_from_slice(b"first\n");
    content.extend_from_slice(b"second\n");
    assert_eq!(last_line(&content), Ok(Some("second".to_string())));
}

#[test]
fn last_line_invalid_text_fails() {
    assert_eq!(last_line(&[0x61, 0x0a, 0xc3]), Err(TailError::InvalidText));
    assert_eq!(last_line(&[0xc3, 0x0a, 0x61]), Ok(Some("a".to_string())));
}
