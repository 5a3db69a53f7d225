use konfigura::filter::filter_content;

fn filt(src: &[u8]) -> Vec<u8> {
    filter_content(&src.to_vec())
}

#[test]
fn keeps_plain_lines_and_drops_comments_and_blanks() {
    assert_eq!(
        filt(b"# comment\n\noption=1\noption=2\n"),
        b"option=1\noption=2\n".to_vec()
    );
}

#[test]
fn empty_input_gives_empty_output() {
    assert_eq!(filt(b""), b"".to_vec());
}

#[test]
fn only_comments_and_blanks_give_empty_output() {
    assert_eq!(filt(b"#a\n#b\n\n\n# c\n"), b"".to_vec());
}

#[test]
fn leading_space_before_hash_is_not_a_comment() {
    assert_eq!(filt(b" # kept\n"), b" # kept\n".to_vec());
}

#[test]
fn hash_in_the_middle_of_a_line_is_kept() {
    assert_eq!(filt(b"a#b\n"), b"a#b\n".to_vec());
}

#[test]
fn final_line_without_newline_gets_one() {
    assert_eq!(filt(b"option=1"), b"option=1\n".to_vec());
}

#[test]
fn crlf_line_endings_are_normalized() {
    assert_eq!(filt(b"a=1\r\nb=2\r\n"), b"a=1\nb=2\n".to_vec());
}

#[test]
fn crlf_comment_line_is_dropped() {
    assert_eq!(filt(b"#x\r\na=1\r\n"), b"a=1\n".to_vec());
}

#[test]
fn lone_trailing_cr_without_newline_is_kept() {
    assert_eq!(filt(b"a\r"), b"a\r\n".to_vec());
}

#[test]
fn blank_crlf_line_is_dropped() {
    assert_eq!(filt(b"a\r\n\r\nb\r\n"), b"a\nb\n".to_vec());
}
