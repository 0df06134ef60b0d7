use textkit::uniq::{collapse_runs, peek_next, same_bytes, split_lines, uniq_text, Run};

#[test]
fn uniq_counts_runs() {
    assert_eq!(uniq_text(b"a\na\nb\n", true), b"   2 a\n   1 b\n".to_vec());
}

#[test]
fn uniq_without_counts() {
    assert_eq!(uniq_text(b"a\na\nb\n", false), b"a\nb\n".to_vec());
    assert_eq!(uniq_text(b"a\nb\na\n", false), b"a\nb\na\n".to_vec());
}

#[test]
fn uniq_empty_and_single_line() {
    assert_eq!(uniq_text(b"", true), Vec::<u8>::new());
    assert_eq!(uniq_text(b"x\n", true), b"   1 x\n".to_vec());
}

#[test]
fn uniq_keeps_missing_final_newline() {
    assert_eq!(uniq_text(b"a\na", false), b"a".to_vec());
    assert_eq!(uniq_text(b"a\nb", true), b"   1 a\n   1 b".to_vec());
}

#[test]
fn uniq_compares_exactly() {
    assert_eq!(uniq_text(b"a\na \nA\n", false), b"a\na \nA\n".to_vec());
    assert_eq!(uniq_text(b"\n\n\nx\n", true), b"   3 \n   1 x\n".to_vec());
}

#[test]
fn uniq_large_count() {
    let data = b"z\n".repeat(12);
    assert_eq!(uniq_text(&data, true), b"   12 z\n".to_vec());
}

#[test]
fn runs_expand_back_to_lines() {
    let lines = split_lines(b"a\na\nb\nb\nb\na\n");
    assert_eq!(lines.len(), 6);
    let runs: Vec<Run> = collapse_runs(&lines);
    let counts: Vec<usize> = runs.iter().map(|r| r.count).collect();
    assert_eq!(counts, vec![2, 3, 1]);
    let mut back: Vec<Vec<u8>> = Vec::new();
    for r in &runs {
        for _ in 0..r.count {
            back.push(r.line.clone());
        }
    }
    assert_eq!(back, lines);
}

#[test]
fn split_lines_drops_terminators() {
    assert_eq!(split_lines(b"a\n\nb"), vec![b"a".to_vec(), Vec::new(), b"b".to_vec()]);
    assert_eq!(split_lines(b"a\n"), vec![b"a".to_vec()]);
    assert!(split_lines(b"").is_empty());
}

#[test]
fn peek_next_looks_one_ahead() {
    let lines = vec![b"a".to_vec(), b"b".to_vec()];
    assert_eq!(peek_next(&lines, 0), Some(&b"b".to_vec()));
    assert_eq!(peek_next(&lines, 1), None);
    assert!(same_bytes(b"ab", b"ab"));
    assert!(!same_bytes(b"ab", b"ac"));
}
