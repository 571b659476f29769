use regex_playground::segmenter::SegStyle;
use regex_playground::session::Session;

fn bytes(s: &str) -> Vec<u8> {
    s.as_bytes().to_vec()
}

fn session_for(pattern: &str, body: &str) -> Session {
    let mut s = Session::new();
    s.set_pattern(pattern.to_string());
    s.set_body(bytes(body));
    s
}

#[test]
fn plain_match_plain() {
    let s = session_for("a+", "baaab");
    let segs = s.segments();
    assert_eq!(segs.len(), 3);
    assert_eq!(segs[0].text, bytes("b"));
    assert!(matches!(segs[0].style, SegStyle::Plain));
    assert_eq!(segs[1].text, bytes("aaa"));
    assert!(matches!(segs[1].style, SegStyle::Matched(0)));
    assert_eq!(segs[2].text, bytes("b"));
    assert!(matches!(segs[2].style, SegStyle::Plain));
}

#[test]
fn zero_width_matches_are_kept() {
    let s = session_for("x*", "ab");
    let segs = s.segments();
    assert_eq!(segs.len(), 5);
    assert_eq!(segs[0].text, bytes(""));
    assert!(matches!(segs[0].style, SegStyle::Matched(0)));
    assert_eq!(segs[1].text, bytes("a"));
    assert!(matches!(segs[1].style, SegStyle::Plain));
    assert_eq!(segs[2].text, bytes(""));
    assert!(matches!(segs[2].style, SegStyle::Matched(1)));
    assert_eq!(segs[3].text, bytes("b"));
    assert!(matches!(segs[3].style, SegStyle::Plain));
    assert_eq!(segs[4].text, bytes(""));
    assert!(matches!(segs[4].style, SegStyle::Matched(2)));
    let concat: Vec<u8> = segs.iter().flat_map(|g| g.text.iter().copied()).collect();
    assert_eq!(concat, bytes("ab"));
}

#[test]
fn tiling_holds_on_multi_line_body() {
    let s = session_for("[0-9]+", "line 1\nsecond 22 line\n3");
    let segs = s.segments();
    let concat: Vec<u8> = segs.iter().flat_map(|g| g.text.iter().copied()).collect();
    assert_eq!(concat, bytes("line 1\nsecond 22 line\n3"));
}

#[test]
fn match_segment_count_equals_match_count() {
    let s = session_for("a+", "baaab aa");
    let segs = s.segments();
    let matched = segs
        .iter()
        .filter(|g| matches!(g.style, SegStyle::Matched(_)))
        .count();
    assert_eq!(matched, 2);
}

#[test]
fn plain_segments_split_at_newlines() {
    let s = session_for("zz", "a\nb");
    let segs = s.segments();
    assert_eq!(segs.len(), 2);
    assert_eq!(segs[0].text, bytes("a\n"));
    assert!(matches!(segs[0].style, SegStyle::Plain));
    assert_eq!(segs[1].text, bytes("b"));
    assert!(matches!(segs[1].style, SegStyle::Plain));
}

#[test]
fn match_with_newline_splits_but_keeps_ordinal() {
    let s = session_for("x\ny", "qx\nyq");
    let segs = s.segments();
    assert_eq!(segs.len(), 4);
    assert_eq!(segs[0].text, bytes("q"));
    assert!(matches!(segs[0].style, SegStyle::Plain));
    assert_eq!(segs[1].text, bytes("x\n"));
    assert!(matches!(segs[1].style, SegStyle::Matched(0)));
    assert_eq!(segs[2].text, bytes("y"));
    assert!(matches!(segs[2].style, SegStyle::Matched(0)));
    assert_eq!(segs[3].text, bytes("q"));
    assert!(matches!(segs[3].style, SegStyle::Plain));
    let concat: Vec<u8> = segs.iter().flat_map(|g| g.text.iter().copied()).collect();
    assert_eq!(concat, bytes("qx\nyq"));
}

#[test]
fn invalid_pattern_gives_single_plain_segment() {
    let s = session_for("(", "hello\nworld");
    assert!(s.diagnostic_message().is_some());
    assert!(!s.diagnostic_message().unwrap().is_empty());
    let segs = s.segments();
    assert_eq!(segs.len(), 1);
    assert_eq!(segs[0].text, bytes("hello\nworld"));
    assert!(matches!(segs[0].style, SegStyle::Plain));
}

#[test]
fn empty_pattern_matches_at_every_position() {
    let s = session_for("", "ab");
    assert!(s.diagnostic_message().is_none());
    let segs = s.segments();
    let matched = segs
        .iter()
        .filter(|g| matches!(g.style, SegStyle::Matched(_)))
        .count();
    assert_eq!(matched, 3);
    let concat: Vec<u8> = segs.iter().flat_map(|g| g.text.iter().copied()).collect();
    assert_eq!(concat, bytes("ab"));
}

#[test]
fn empty_body_with_matcher() {
    let s = session_for("a+", "");
    let segs = s.segments();
    assert_eq!(segs.len(), 0);
}

#[test]
fn empty_body_without_matcher() {
    let s = session_for("(", "");
    let segs = s.segments();
    assert_eq!(segs.len(), 1);
    assert_eq!(segs[0].text, bytes(""));
}

#[test]
fn adjacent_matches_have_no_gap_between() {
    let s = session_for("ab|cd", "abcd");
    let segs = s.segments();
    assert_eq!(segs.len(), 2);
    assert_eq!(segs[0].text, bytes("ab"));
    assert!(matches!(segs[0].style, SegStyle::Matched(0)));
    assert_eq!(segs[1].text, bytes("cd"));
    assert!(matches!(segs[1].style, SegStyle::Matched(1)));
}

#[test]
fn color_class_cycles_over_five() {
    assert_eq!(regex_playground::color_class(0), 0);
    assert_eq!(regex_playground::color_class(4), 4);
    assert_eq!(regex_playground::color_class(5), 0);
    assert_eq!(regex_playground::color_class(7), 2);
}
