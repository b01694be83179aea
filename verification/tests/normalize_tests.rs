use eris::preprocess_multi_line_comments;

#[test]
fn plain_text_is_unchanged() {
    assert_eq!(preprocess_multi_line_comments("x := 1;"), "x := 1;");
}

#[test]
fn empty_input() {
    assert_eq!(preprocess_multi_line_comments(""), "");
}

#[test]
fn strips_block_comment() {
    // The comment body, markers included, vanishes; the text around it stays.
    assert_eq!(
        preprocess_multi_line_comments("x -+ this is ignored +- := 1;"),
        "x  := 1;"
    );
}

#[test]
fn strips_multi_line_block_comment() {
    assert_eq!(
        preprocess_multi_line_comments("a -+ line one\nline two +- b"),
        "a  b"
    );
}

#[test]
fn unterminated_comment_truncates_silently() {
    // An open marker with no close marker consumes to end-of-input.
    assert_eq!(preprocess_multi_line_comments("head -+ tail without close"), "head ");
}

#[test]
fn nested_open_marker_is_plain_comment_body() {
    // No nesting: the inner `-+` is ordinary body, the first `+-` closes.
    assert_eq!(preprocess_multi_line_comments("a -+ x -+ y +- b"), "a  b");
}

#[test]
fn close_marker_outside_comment_is_kept() {
    assert_eq!(preprocess_multi_line_comments("+-"), "+-");
}

#[test]
fn lone_dash_at_end_is_kept() {
    assert_eq!(preprocess_multi_line_comments("ab-"), "ab-");
}

#[test]
fn adjacent_comments() {
    assert_eq!(preprocess_multi_line_comments("-+a+--+b+-x"), "x");
}
