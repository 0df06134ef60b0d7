use textkit::numtext::decimal_text;
use textkit::wc::{count_text, format_row, is_whitespace, wc_report, Config, Counts};

fn chars(s: &str) -> Vec<char> {
    s.chars().collect()
}

fn counts(s: &str) -> (usize, usize, usize, usize) {
    let c = count_text(&chars(s));
    (c.lines, c.words, c.bytes, c.chars)
}

#[test]
fn wc_counts_plain_text() {
    assert_eq!(counts("hello world\nsecond line here\n"), (2, 5, 29, 29));
    assert_eq!(counts(""), (0, 0, 0, 0));
    assert_eq!(counts("no newline"), (1, 2, 10, 10));
    assert_eq!(counts("\n\n"), (2, 0, 2, 2));
}

#[test]
fn wc_counts_unicode() {
    assert_eq!(counts("caf\u{e9} \u{20ac}\u{1f600}\n"), (1, 2, 14, 8));
    assert_eq!(counts("a\u{a0}b\u{3000}c"), (1, 3, 8, 5));
}

#[test]
fn wc_counts_add_up_over_lines() {
    let a = "one two\n";
    let b = "three\nfour five six";
    let whole = counts(&format!("{}{}", a, b));
    let (x, y) = (counts(a), counts(b));
    assert_eq!(whole, (x.0 + y.0, x.1 + y.1, x.2 + y.2, x.3 + y.3));
}

#[test]
fn whitespace_matches_std() {
    for c in ['a', ' ', '\t', '\n', '\u{85}', '\u{a0}', '\u{2007}', '\u{200b}', '\u{3000}', 'x'] {
        assert_eq!(is_whitespace(c), c.is_whitespace());
    }
}

#[test]
fn counts_plus_and_overflow() {
    let a = Counts { lines: 1, words: 2, bytes: 3, chars: 4 };
    let b = Counts { lines: 10, words: 20, bytes: 30, chars: 40 };
    let t = a.plus(&b).unwrap();
    assert_eq!((t.lines, t.words, t.bytes, t.chars), (11, 22, 33, 44));
    let big = Counts { lines: usize::MAX, words: 0, bytes: 0, chars: 0 };
    assert!(big.plus(&a).is_none());
}

fn config(lines: bool, words: bool, bytes: bool, characters: bool) -> Config {
    Config { files: vec!["-".to_string()], lines, words, bytes, characters }
}

#[test]
fn wc_row_defaults_and_selection() {
    let c = Counts { lines: 2, words: 5, bytes: 29, chars: 27 };
    assert_eq!(
        format_row(&config(false, false, false, false), &c, "f.txt"),
        b"       2       5      29 f.txt\n".to_vec()
    );
    assert_eq!(format_row(&config(true, false, false, true), &c, "f.txt"), b"       2      27 f.txt\n".to_vec());
    assert_eq!(format_row(&config(false, true, false, false), &c, "-"), b"       5\n".to_vec());
    assert_eq!(format_row(&config(false, false, true, false), &c, "total"), b"      29 total\n".to_vec());
}

#[test]
fn wide_numbers_are_not_cut() {
    let c = Counts { lines: 123456789, words: 0, bytes: 0, chars: 0 };
    assert_eq!(format_row(&config(true, false, false, false), &c, "-"), b"123456789\n".to_vec());
    assert_eq!(decimal_text(0), b"0".to_vec());
    assert_eq!(decimal_text(1024), b"1024".to_vec());
}

#[test]
fn wc_report_adds_total_line() {
    let cfg = config(false, false, false, false);
    let names = vec!["a.txt".to_string(), "b.txt".to_string()];
    let counts = vec![
        Counts { lines: 1, words: 2, bytes: 10, chars: 10 },
        Counts { lines: 3, words: 4, bytes: 20, chars: 18 },
    ];
    let out = wc_report(&cfg, &names, &counts).unwrap();
    assert_eq!(
        String::from_utf8(out).unwrap(),
        "       1       2      10 a.txt\n       3       4      20 b.txt\n       4       6      30 total\n"
    );
}

#[test]
fn wc_report_single_file_has_no_total() {
    let cfg = config(true, false, false, false);
    let names = vec!["-".to_string()];
    let counts = vec![Counts { lines: 7, words: 0, bytes: 0, chars: 0 }];
    assert_eq!(wc_report(&cfg, &names, &counts).unwrap(), b"       7\n".to_vec());
}

#[test]
fn wc_report_total_overflow() {
    let cfg = config(false, false, false, false);
    let names = vec!["a".to_string(), "b".to_string()];
    let counts = vec![
        Counts { lines: 0, words: 0, bytes: usize::MAX, chars: 0 },
        Counts { lines: 0, words: 0, bytes: 1, chars: 0 },
    ];
    assert!(wc_report(&cfg, &names, &counts).is_none());
}
