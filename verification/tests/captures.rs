use regex_playground::segmenter::SegStyle;
use regex_playground::session::Session;

fn bytes(s: &str) -> Vec<u8> {
    s.as_bytes().to_vec()
}

fn session_for(pattern: &str, body: &str) -> Session {
    let mut s = Session::new();
    s.set_pattern(pattern.to_string());
    s.set_body(bytes(body));
    s
}

#[test]
fn single_group_single_row() {
    let s = session_for("a+", "baaab");
    let (labels, rows) = s.capture_table();
    assert_eq!(labels, vec![bytes("0")]);
    assert_eq!(rows.len(), 1);
    assert_eq!(rows[0], vec![bytes("aaa")]);
}

#[test]
fn named_group_labels_and_rows() {
    let s = session_for("(?<word>\\w+)", "hi there");
    let (labels, rows) = s.capture_table();
    assert_eq!(labels, vec![bytes("0"), bytes("word")]);
    assert_eq!(rows.len(), 2);
    assert_eq!(rows[0], vec![bytes("hi"), bytes("hi")]);
    assert_eq!(rows[1], vec![bytes("there"), bytes("there")]);
}

#[test]
fn row_count_equals_match_segment_count() {
    let s = session_for("[0-9]+", "a1b22c333");
    let (_, rows) = s.capture_table();
    let segs = s.segments();
    let matched = segs
        .iter()
        .filter(|g| matches!(g.style, SegStyle::Matched(_)))
        .count();
    assert_eq!(rows.len(), matched);
    assert_eq!(rows.len(), 3);
}

#[test]
fn invalid_pattern_gives_empty_table() {
    let s = session_for("(", "anything");
    let (labels, rows) = s.capture_table();
    assert!(labels.is_empty());
    assert!(rows.is_empty());
}

#[test]
fn group_that_did_not_participate_is_empty() {
    let s = session_for("(a)|(b)", "b");
    let (labels, rows) = s.capture_table();
    assert_eq!(labels, vec![bytes("0"), bytes("1"), bytes("2")]);
    assert_eq!(rows.len(), 1);
    assert_eq!(rows[0], vec![bytes("b"), bytes(""), bytes("b")]);
}

#[test]
fn positional_labels_render_two_digit_indices() {
    let s = session_for("(a)(b)(c)(d)(e)(f)(g)(h)(i)(j)", "abcdefghij");
    let (labels, rows) = s.capture_table();
    assert_eq!(labels.len(), 11);
    assert_eq!(labels[0], bytes("0"));
    assert_eq!(labels[9], bytes("9"));
    assert_eq!(labels[10], bytes("10"));
    assert_eq!(rows.len(), 1);
    assert_eq!(rows[0][10], bytes("j"));
}

#[test]
fn mixed_named_and_positional_labels() {
    let s = session_for("(?<a>x)(y)(?<c>z)", "xyz");
    let (labels, rows) = s.capture_table();
    assert_eq!(labels, vec![bytes("0"), bytes("a"), bytes("2"), bytes("c")]);
    assert_eq!(rows[0], vec![bytes("xyz"), bytes("x"), bytes("y"), bytes("z")]);
}

#[test]
fn no_matches_gives_labels_but_no_rows() {
    let s = session_for("(?<num>[0-9]+)", "no digits here");
    let (labels, rows) = s.capture_table();
    assert_eq!(labels, vec![bytes("0"), bytes("num")]);
    assert!(rows.is_empty());
}
