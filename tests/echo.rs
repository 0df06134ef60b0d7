use textkit::echo::echo_text;

fn words(ws: &[&str]) -> Vec<Vec<u8>> {
    ws.iter().map(|w| w.as_bytes().to_vec()).collect()
}

#[test]
fn echo_one_argument() {
    assert_eq!(echo_text(&words(&["Hello there"]), false), b"Hello there\n".to_vec());
    assert_eq!(echo_text(&words(&["Hello there"]), true), b"Hello there".to_vec());
}

#[test]
fn echo_joins_with_single_spaces() {
    assert_eq!(echo_text(&words(&["Hello", "there"]), false), b"Hello there\n".to_vec());
    assert_eq!(echo_text(&words(&["Hello", "there"]), true), b"Hello there".to_vec());
    assert_eq!(echo_text(&words(&["Hello  there"]), true), b"Hello  there".to_vec());
}

#[test]
fn echo_newline_is_the_only_difference() {
    let ws = words(&["a", "", "b c"]);
    let mut with = echo_text(&ws, true);
    assert_eq!(with, b"a  b c".to_vec());
    with.push(b'\n');
    assert_eq!(echo_text(&ws, false), with);
}
