use headr::config::Config;
use headr::head::diagnostic_line;
use headr::head::header_line;
use headr::head::process_source;
use headr::head::process_sources;
use headr::head::take_bytes;
use headr::head::take_lines;

fn line_config(files: Vec<String>, lines: usize) -> Config {
    Config {
        files,
        lines,
        bytes: None,
    }
}

fn byte_config(files: Vec<String>, bytes: usize) -> Config {
    Config {
        files,
        lines: 10,
        bytes: Some(bytes),
    }
}

#[test]
fn test_take_lines_truncates() {
    let r = take_lines(b"a\nb\nc\nd\n", 3);
    assert_eq!(r, b"a\nb\nc\n".to_vec());
}

#[test]
fn test_take_lines_short_source() {
    let r = take_lines(b"a\nb", 5);
    assert_eq!(r, b"a\nb".to_vec());
}

#[test]
fn test_take_lines_keeps_unterminated_line() {
    let r = take_lines(b"a\nbcd", 2);
    assert_eq!(r, b"a\nbcd".to_vec());
}

#[test]
fn test_take_bytes_truncates() {
    let r = take_bytes(b"abcdef", 2);
    assert_eq!(r, b"ab".to_vec());
}

#[test]
fn test_take_bytes_short_source() {
    let r = take_bytes(b"hi", 10);
    assert_eq!(r, b"hi".to_vec());
}

#[test]
fn test_header_line_first() {
    assert_eq!(header_line("fileA", 0), "==> fileA <==\n".to_string());
}

#[test]
fn test_header_line_later() {
    assert_eq!(header_line("fileB", 1), "\n==> fileB <==\n".to_string());
}

#[test]
fn test_diagnostic_line() {
    assert_eq!(
        diagnostic_line("blargh", "No such file or directory (os error 2)"),
        "blargh: No such file or directory (os error 2)\n".to_string()
    );
}

#[test]
fn test_line_mode_single_source() {
    let cfg = line_config(vec!["f".to_string()], 3);
    let data = vec![Ok(b"a\nb\nc\nd\n".to_vec())];
    let (out, err) = process_sources(&cfg, &data);
    assert_eq!(out, "a\nb\nc\n".to_string());
    assert_eq!(err, "".to_string());
}

#[test]
fn test_byte_mode_single_source() {
    let cfg = byte_config(vec!["f".to_string()], 5);
    let data = vec![Ok(b"hello world".to_vec())];
    let (out, err) = process_sources(&cfg, &data);
    assert_eq!(out, "hello".to_string());
    assert_eq!(err, "".to_string());
}

#[test]
fn test_short_source_emitted_in_full() {
    let cfg = line_config(vec!["f".to_string()], 10);
    let data = vec![Ok(b"a\nb\n".to_vec())];
    let (out, err) = process_sources(&cfg, &data);
    assert_eq!(out, "a\nb\n".to_string());
    assert_eq!(err, "".to_string());
}

#[test]
fn test_short_source_byte_mode_in_full() {
    let cfg = byte_config(vec!["f".to_string()], 100);
    let data = vec![Ok(b"hi".to_vec())];
    let (out, _) = process_sources(&cfg, &data);
    assert_eq!(out, "hi".to_string());
}

#[test]
fn test_single_source_has_no_header() {
    let cfg = line_config(vec!["f".to_string()], 10);
    let data = vec![Ok(b"x\n".to_vec())];
    let (out, _) = process_sources(&cfg, &data);
    assert_eq!(out, "x\n".to_string());
}

#[test]
fn test_two_sources_headers() {
    let cfg = line_config(vec!["fileA".to_string(), "fileB".to_string()], 10);
    let data = vec![Ok(b"one\ntwo\n".to_vec()), Ok(b"three\n".to_vec())];
    let (out, err) = process_sources(&cfg, &data);
    assert_eq!(
        out,
        "==> fileA <==\none\ntwo\n\n==> fileB <==\nthree\n".to_string()
    );
    assert_eq!(err, "".to_string());
}

#[test]
fn test_failed_source_is_isolated() {
    let cfg = line_config(
        vec!["fileA".to_string(), "blargh".to_string(), "fileB".to_string()],
        10,
    );
    let data = vec![
        Ok(b"a\n".to_vec()),
        Err("No such file or directory (os error 2)".to_string()),
        Ok(b"b\n".to_vec()),
    ];
    let (out, err) = process_sources(&cfg, &data);
    assert_eq!(
        out,
        "==> fileA <==\na\n\n==> fileB <==\nb\n".to_string()
    );
    assert_eq!(
        err,
        "blargh: No such file or directory (os error 2)\n".to_string()
    );
}

#[test]
fn test_failed_single_source() {
    let cfg = line_config(vec!["nope".to_string()], 10);
    let data = vec![Err("permission denied".to_string())];
    let (out, err) = process_sources(&cfg, &data);
    assert_eq!(out, "".to_string());
    assert_eq!(err, "nope: permission denied\n".to_string());
}

#[test]
fn test_process_single_source() {
    let cfg = byte_config(vec!["a".to_string(), "b".to_string()], 4);
    let data: Result<Vec<u8>, String> = Ok(b"wxyz123".to_vec());
    let (out, err) = process_source(&cfg, 1, &data);
    assert_eq!(out, "\n==> b <==\nwxyz".to_string());
    assert_eq!(err, "".to_string());
}

#[test]
fn test_byte_mode_lossy_decoding() {
    let cfg = byte_config(vec!["f".to_string()], 2);
    let data = vec![Ok(vec![0xffu8, 0x61u8, 0x62u8])];
    let (out, _) = process_sources(&cfg, &data);
    assert_eq!(out, "\u{fffd}a".to_string());
}

#[test]
fn test_byte_mode_splits_multibyte_sequence() {
    // U+00E9 is the two bytes 0xc3 0xa9; cutting after one byte leaves an
    // invalid sequence, which decodes to the replacement character.
    let cfg = byte_config(vec!["f".to_string()], 2);
    let data = vec![Ok("a\u{e9}".as_bytes().to_vec())];
    let (out, _) = process_sources(&cfg, &data);
    assert_eq!(out, "a\u{fffd}".to_string());
}

#[test]
fn test_byte_mode_overrides_line_mode() {
    let cfg = Config {
        files: vec!["f".to_string()],
        lines: 1,
        bytes: Some(7),
    };
    let data = vec![Ok(b"a\nb\nc\nd\n".to_vec())];
    let (out, _) = process_sources(&cfg, &data);
    assert_eq!(out, "a\nb\nc\nd".to_string());
}
