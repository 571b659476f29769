use regex_playground::session::{BufferEdit, Session};
use regex_playground::state::{
    Action, Event, FocusTarget, InteractionState, PanelMode, TopLevelMode,
};
use regex_playground::text::join_lines;

fn bytes(s: &str) -> Vec<u8> {
    s.as_bytes().to_vec()
}

fn focus_is_valid(s: &InteractionState) -> bool {
    !(matches!(s.mode, TopLevelMode::MatchOnly) && matches!(s.focus, FocusTarget::Substitution))
}

#[test]
fn initial_state() {
    let s = InteractionState::init();
    assert!(matches!(s.focus, FocusTarget::Pattern));
    assert!(matches!(s.panel, PanelMode::Captures));
    assert!(matches!(s.mode, TopLevelMode::MatchOnly));
}

#[test]
fn focus_cycles_without_substitution_in_match_only() {
    let s = InteractionState::init();
    let s = s.toggle_focus();
    assert!(matches!(s.focus, FocusTarget::Body));
    let s = s.toggle_focus();
    assert!(matches!(s.focus, FocusTarget::Pattern));
}

#[test]
fn focus_cycles_through_substitution_in_substitute_mode() {
    let s = InteractionState::init().toggle_mode();
    assert!(matches!(s.mode, TopLevelMode::MatchAndSubstitute));
    let s = s.toggle_focus();
    assert!(matches!(s.focus, FocusTarget::Substitution));
    let s = s.toggle_focus();
    assert!(matches!(s.focus, FocusTarget::Body));
    let s = s.toggle_focus();
    assert!(matches!(s.focus, FocusTarget::Pattern));
}

#[test]
fn panel_toggle_swaps_and_is_independent_of_focus() {
    let s = InteractionState::init();
    let t = s.toggle_panel();
    assert!(matches!(t.panel, PanelMode::QuickReference));
    assert!(matches!(t.focus, FocusTarget::Pattern));
    let u = t.toggle_panel();
    assert!(matches!(u.panel, PanelMode::Captures));
}

#[test]
fn leaving_substitute_mode_resets_substitution_focus() {
    let s = InteractionState::init().toggle_mode().toggle_focus();
    assert!(matches!(s.focus, FocusTarget::Substitution));
    let s = s.toggle_mode();
    assert!(matches!(s.mode, TopLevelMode::MatchOnly));
    assert!(matches!(s.focus, FocusTarget::Pattern));
}

#[test]
fn focus_stays_valid_over_arbitrary_event_sequences() {
    let events = [
        Event::ToggleTopLevelMode,
        Event::ToggleFocus,
        Event::TogglePanel,
        Event::ToggleTopLevelMode,
        Event::ToggleFocus,
        Event::ToggleFocus,
        Event::ToggleTopLevelMode,
        Event::ToggleFocus,
        Event::ToggleFocus,
        Event::ToggleTopLevelMode,
        Event::CommitEdit(FocusTarget::Pattern),
        Event::ToggleFocus,
    ];
    let mut s = InteractionState::init();
    assert!(focus_is_valid(&s));
    for e in events {
        let (next, _) = s.step(e);
        s = next;
        assert!(focus_is_valid(&s));
    }
}

#[test]
fn control_events_produce_their_actions() {
    let s = InteractionState::init();
    assert!(matches!(s.step(Event::Quit).1, Action::Quit));
    assert!(matches!(s.step(Event::ExportPattern).1, Action::EmitPattern));
    assert!(matches!(s.step(Event::ExportOutput).1, Action::EmitOutput));
    assert!(matches!(s.step(Event::ToggleFocus).1, Action::Continue));
    assert!(matches!(
        s.step(Event::CommitEdit(FocusTarget::Body)).1,
        Action::Continue
    ));
}

#[test]
fn session_routes_events_and_keeps_buffers() {
    let mut s = Session::new();
    s.set_body(bytes("abc"));
    let a = s.handle_event(Event::ToggleFocus);
    assert!(matches!(a, Action::Continue));
    assert_eq!(s.body_bytes(), &bytes("abc"));
    let a = s.handle_event(Event::Quit);
    assert!(matches!(a, Action::Quit));
}

#[test]
fn commit_edit_applies_only_to_focused_buffer() {
    let mut s = Session::new();
    // Focus starts on Pattern: a body edit must not be applied.
    assert!(!s.commit_edit(BufferEdit::Body(bytes("zzz"))));
    assert_eq!(s.body_bytes(), &bytes(""));
    // A pattern edit is applied and recompiled.
    assert!(s.commit_edit(BufferEdit::Pattern("a+".to_string())));
    assert_eq!(s.pattern_string(), "a+".to_string());
    assert!(s.diagnostic_message().is_none());
    // Move focus to Body: now a body edit lands.
    s.handle_event(Event::ToggleFocus);
    assert!(s.commit_edit(BufferEdit::Body(bytes("baaab"))));
    assert_eq!(s.body_bytes(), &bytes("baaab"));
    // A substitution edit is refused while Body is focused.
    assert!(!s.commit_edit(BufferEdit::Substitution(bytes("<$0>"))));
}

#[test]
fn pattern_edit_failure_sets_diagnostic_and_clears_matcher() {
    let mut s = Session::new();
    assert!(s.commit_edit(BufferEdit::Pattern("[a-z]+".to_string())));
    assert!(s.diagnostic_message().is_none());
    assert!(s.commit_edit(BufferEdit::Pattern("(".to_string())));
    let d = s.diagnostic_message();
    assert!(d.is_some());
    assert!(!d.unwrap().is_empty());
    s.set_body(bytes("abc"));
    let segs = s.segments();
    assert_eq!(segs.len(), 1);
    assert_eq!(segs[0].text, bytes("abc"));
}

#[test]
fn export_pattern_returns_current_text() {
    let mut s = Session::new();
    s.set_pattern("\\w+".to_string());
    assert_eq!(s.pattern_string(), "\\w+".to_string());
}

#[test]
fn join_lines_inserts_single_newlines() {
    assert_eq!(join_lines(&vec![]), bytes(""));
    assert_eq!(join_lines(&vec![bytes("only")]), bytes("only"));
    assert_eq!(
        join_lines(&vec![bytes("hi"), bytes(""), bytes("there")]),
        bytes("hi\n\nthere")
    );
}
