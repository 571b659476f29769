use regex_playground::session::Session;

fn bytes(s: &str) -> Vec<u8> {
    s.as_bytes().to_vec()
}

fn rendered(pattern: &str, body: &str, template: &str) -> Vec<u8> {
    let mut s = Session::new();
    s.set_pattern(pattern.to_string());
    s.set_body(bytes(body));
    s.set_template(bytes(template));
    s.render_substitution()
}

#[test]
fn whole_match_reference() {
    assert_eq!(rendered("\\d+", "a1b22", "<$0>"), bytes("a<1>b<22>"));
}

#[test]
fn no_matches_returns_body_unchanged() {
    assert_eq!(rendered("z", "abc", "X"), bytes("abc"));
}

#[test]
fn invalid_pattern_returns_body_unchanged() {
    assert_eq!(rendered("(", "abc", "X"), bytes("abc"));
}

#[test]
fn positional_group_reference() {
    assert_eq!(
        rendered("(\\w+)@(\\w+)", "mail: who@where", "$2.$1"),
        bytes("mail: where.who")
    );
}

#[test]
fn named_group_reference() {
    assert_eq!(
        rendered("(?<word>\\w+)", "hi there", "[$word]"),
        bytes("[hi] [there]")
    );
}

#[test]
fn out_of_range_group_is_empty() {
    assert_eq!(rendered("a+", "xaax", "<$7>"), bytes("x<>x"));
}

#[test]
fn unknown_name_is_empty() {
    assert_eq!(rendered("a+", "xaax", "<$missing>"), bytes("x<>x"));
}

#[test]
fn lone_dollar_is_literal() {
    assert_eq!(rendered("a+", "xax", "$"), bytes("x$x"));
    assert_eq!(rendered("a+", "xax", "$ b"), bytes("x$ bx"));
}

#[test]
fn double_dollar_then_digit_expands_after_literal_dollar() {
    assert_eq!(rendered("\\d", "a1", "$$0"), bytes("a$1"));
}

#[test]
fn group_that_did_not_participate_is_empty_in_template() {
    assert_eq!(rendered("(a)|(b)", "b", "[$1|$2]"), bytes("[|b]"));
}

#[test]
fn replacement_with_empty_template_deletes_matches() {
    assert_eq!(rendered("\\d+", "a1b22", ""), bytes("ab"));
}

#[test]
fn adjacent_tokens_without_separator() {
    assert_eq!(
        rendered("(a)(b)", "ab", "$2$1"),
        bytes("ba")
    );
}

#[test]
fn template_may_contain_newlines() {
    assert_eq!(rendered("b", "abc", "\n"), bytes("a\nc"));
}

#[test]
fn substitution_over_multi_line_body() {
    assert_eq!(
        rendered("^", "x\ny", "-"),
        bytes("-x\ny")
    );
}

#[test]
fn name_longer_run_swallows_following_letters() {
    // `$wordy` refers to a group named `wordy`, not `word` then `y`.
    assert_eq!(
        rendered("(?<word>a+)", "xaax", "<$wordy>"),
        bytes("x<>x")
    );
}

#[test]
fn export_output_matches_preview() {
    let mut s = Session::new();
    s.set_pattern("\\d+".to_string());
    s.set_body(bytes("a1b22"));
    s.set_template(bytes("<$0>"));
    assert_eq!(s.export_output(), s.render_substitution());
    assert_eq!(s.export_output(), bytes("a<1>b<22>"));
}

#[test]
fn export_output_without_matcher_is_body() {
    let mut s = Session::new();
    s.set_pattern("(".to_string());
    s.set_body(bytes("raw body"));
    s.set_template(bytes("<$0>"));
    assert_eq!(s.export_output(), bytes("raw body"));
}
