use textkit::head::{head_bytes, head_file, head_lines, head_section, Config};
use textkit::numtext::parse_positive_int;

#[test]
fn test_parse_positive_int() {
    let res = parse_positive_int("3");
    assert!(res.is_ok());
    assert_eq!(res.unwrap(), 3);

    let res = parse_positive_int("foo");
    assert!(res.is_err());
    assert_eq!(res.unwrap_err().to_string(), "foo".to_string());

    let res = parse_positive_int("0");
    assert!(res.is_err());
    assert_eq!(res.unwrap_err().to_string(), "0".to_string());
}

#[test]
fn parse_accepts_plus_sign_and_rejects_others() {
    assert_eq!(parse_positive_int("+12"), Ok(12));
    assert_eq!(parse_positive_int("007"), Ok(7));
    assert!(parse_positive_int("").is_err());
    assert!(parse_positive_int("+").is_err());
    assert!(parse_positive_int("-1").is_err());
    assert!(parse_positive_int(" 1").is_err());
    assert!(parse_positive_int("12a").is_err());
}

#[test]
fn parse_largest_and_overflow() {
    let max = usize::MAX.to_string();
    assert_eq!(parse_positive_int(&max), Ok(usize::MAX));
    let over = format!("{}0", max);
    assert_eq!(parse_positive_int(&over), Err(over.clone()));
}

#[test]
fn head_lines_keeps_terminators() {
    let data = b"one\ntwo\r\nthree\nfour";
    assert_eq!(head_lines(data, 2), b"one\ntwo\r\n".to_vec());
    assert_eq!(head_lines(data, 1), b"one\n".to_vec());
}

#[test]
fn head_lines_short_file_is_whole() {
    let data = b"one\ntwo";
    assert_eq!(head_lines(data, 10), data.to_vec());
    assert_eq!(head_lines(data, 2), data.to_vec());
    assert_eq!(head_lines(b"", 3), Vec::<u8>::new());
}

#[test]
fn head_lines_blank_lines_count() {
    assert_eq!(head_lines(b"\n\n\nx\n", 2), b"\n\n".to_vec());
}

#[test]
fn head_bytes_limits() {
    let data = b"hello world";
    assert_eq!(head_bytes(data, 5), b"hello".to_vec());
    assert_eq!(head_bytes(data, 11), data.to_vec());
    assert_eq!(head_bytes(data, 100), data.to_vec());
    assert_eq!(head_bytes(b"", 4), Vec::<u8>::new());
}

#[test]
fn head_file_picks_mode() {
    let by_lines = Config { files: vec!["-".to_string()], lines: 1, bytes: None };
    assert_eq!(head_file(&by_lines, b"ab\ncd\n"), b"ab\n".to_vec());
    let by_bytes = Config { files: vec!["-".to_string()], lines: 1, bytes: Some(4) };
    assert_eq!(head_file(&by_bytes, b"ab\ncd\n"), b"ab\nc".to_vec());
}

#[test]
fn head_section_frames_several_files() {
    assert_eq!(head_section("a.txt", b"x\n", 0, 2), b"==> a.txt <==\nx\n\n".to_vec());
    assert_eq!(head_section("b.txt", b"y\n", 1, 2), b"==> b.txt <==\ny\n".to_vec());
    assert_eq!(head_section("c.txt", b"z\n", 0, 1), b"z\n".to_vec());
}
