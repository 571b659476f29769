use vstd::prelude::*;
use crate::matcher::{
    capture_rows_of, group_names_of, match_spans_of, pattern_ok, rows_view, Matcher,
};
use crate::segmenter::{
    concat_segs, match_count_model, run_model, segment, segment_model, segs_match, SegStyle,
    Segment,
};
use crate::state::{Action, Event, FocusTarget, InteractionState};
use crate::subst::{render, render_model};
use crate::tabulator::{capture_cells, cell_model, column_labels, label_model};
use crate::text::sub_bytes;

verus! {

/// The content of one committed edit, one variant per editable buffer.
pub enum BufferEdit {
    Pattern(String),
    Substitution(Vec<u8>),
    Body(Vec<u8>),
}

/// Whether an edit's buffer is the one the focus identifies.
pub open spec fn edit_matches_focus(edit: BufferEdit, focus: FocusTarget) -> bool {
    match edit {
        BufferEdit::Pattern(_) => focus is Pattern,
        BufferEdit::Substitution(_) => focus is Substitution,
        BufferEdit::Body(_) => focus is Body,
    }
}

/// One interactive session: the three text buffers, the matcher compiled
/// from the current pattern text (or the diagnostic of the failed
/// compile), and the interaction state.  An empty pattern is an ordinary
/// pattern: it compiles and matches at every position.  When compilation
/// fails the matcher is cleared, so presentation degrades to no
/// highlighting rather than stale matches.
pub struct Session {
    pattern: String,
    template: Vec<u8>,
    body: Vec<u8>,
    matcher: Option<Matcher>,
    diagnostic: Option<String>,
    state: InteractionState,
}

impl Session {
    /// The pattern buffer's text.
    pub closed spec fn pattern_text(self) -> Seq<char> {
        self.pattern@
    }

    /// The substitution template buffer's bytes.
    pub closed spec fn template_text(self) -> Seq<u8> {
        self.template@
    }

    /// The body buffer's bytes.
    pub closed spec fn body_text(self) -> Seq<u8> {
        self.body@
    }

    /// The interaction state.
    pub closed spec fn ui(self) -> InteractionState {
        self.state
    }

    /// Whether a compiled matcher is present.
    pub closed spec fn has_matcher(self) -> bool {
        self.matcher is Some
    }

    /// Whether a compile diagnostic is present.
    pub closed spec fn has_diagnostic(self) -> bool {
        self.diagnostic is Some
    }

    /// The session invariant: the matcher is present exactly when the
    /// current pattern compiles and is the one compiled from it; the
    /// diagnostic is present exactly when it does not; the focus is
    /// valid for the mode.
    pub closed spec fn wf(self) -> bool {
        &&& self.matcher is Some <==> pattern_ok(self.pattern@)
        &&& (self.matcher matches Some(m) ==> m.wf() && m.pattern() == self.pattern@)
        &&& (self.diagnostic is Some <==> !pattern_ok(self.pattern@))
        &&& self.state.focus_valid()
    }

    /// What a well-formed session guarantees of its derived flags.
    pub proof fn lemma_wf_facts(self)
        requires
            self.wf(),
        ensures
            self.has_matcher() <==> pattern_ok(self.pattern_text()),
            self.has_diagnostic() <==> !pattern_ok(self.pattern_text()),
            self.ui().focus_valid(),
    {
    }

    /// A fresh session: empty buffers, the startup interaction state,
    /// and the matcher of the empty pattern.
    pub fn new() -> (s: Session)
        ensures
            s.wf(),
            s.pattern_text() == Seq::<char>::empty(),
            s.template_text() == Seq::<u8>::empty(),
            s.body_text() == Seq::<u8>::empty(),
            s.ui() == InteractionState::spec_init(),
    {
        let pattern = String::new();
        let (matcher, diagnostic) = match Matcher::compile(pattern.as_str()) {
            Ok(m) => (Some(m), None),
            Err(e) => (None, Some(e)),
        };
        Session {
            pattern,
            template: Vec::new(),
            body: Vec::new(),
            matcher,
            diagnostic,
            state: InteractionState::init(),
        }
    }

    /// Replaces the pattern text and recompiles it: exactly one
    /// recompilation per committed edit.  On failure the matcher is
    /// cleared and the diagnostic set.
    pub fn set_pattern(&mut self, text: String)
        requires
            old(self).wf(),
        ensures
            final(self).wf(),
            final(self).pattern_text() == text@,
            final(self).template_text() == old(self).template_text(),
            final(self).body_text() == old(self).body_text(),
            final(self).ui() == old(self).ui(),
            final(self).has_matcher() <==> pattern_ok(text@),
            final(self).has_diagnostic() <==> !pattern_ok(text@),
    {
        self.pattern = text;
        match Matcher::compile(self.pattern.as_str()) {
            Ok(m) => {
                self.matcher = Some(m);
                self.diagnostic = None;
            },
            Err(e) => {
                self.matcher = None;
                self.diagnostic = Some(e);
            },
        }
    }

    /// Replaces the substitution template.
    pub fn set_template(&mut self, template: Vec<u8>)
        requires
            old(self).wf(),
        ensures
            final(self).wf(),
            final(self).template_text() == template@,
            final(self).pattern_text() == old(self).pattern_text(),
            final(self).body_text() == old(self).body_text(),
            final(self).ui() == old(self).ui(),
            final(self).has_matcher() == old(self).has_matcher(),
            final(self).has_diagnostic() == old(self).has_diagnostic(),
    {
        self.template = template;
    }

    /// Replaces the body text.
    pub fn set_body(&mut self, body: Vec<u8>)
        requires
            old(self).wf(),
        ensures
            final(self).wf(),
            final(self).body_text() == body@,
            final(self).pattern_text() == old(self).pattern_text(),
            final(self).template_text() == old(self).template_text(),
            final(self).ui() == old(self).ui(),
            final(self).has_matcher() == old(self).has_matcher(),
            final(self).has_diagnostic() == old(self).has_diagnostic(),
    {
        self.body = body;
    }

    /// The current pattern text, for export.
    pub fn pattern_string(&self) -> (r: String)
        ensures
            r@ == self.pattern_text(),
    {
        self.pattern.clone()
    }

    /// The current body bytes.
    pub fn body_bytes(&self) -> (r: &Vec<u8>)
        ensures
            r@ == self.body_text(),
    {
        &self.body
    }

    /// The current template bytes.
    pub fn template_bytes(&self) -> (r: &Vec<u8>)
        ensures
            r@ == self.template_text(),
    {
        &self.template
    }

    /// The diagnostic of the last failed compile, or nothing when the
    /// pattern compiles.
    pub fn diagnostic_message(&self) -> (r: Option<String>)
        requires
            self.wf(),
        ensures
            r is Some <==> !pattern_ok(self.pattern_text()),
    {
        match &self.diagnostic {
            Some(d) => Some(d.clone()),
            None => None,
        }
    }

    /// The current interaction state.
    pub fn ui_state(&self) -> (s: InteractionState)
        ensures
            s == self.ui(),
    {
        self.state
    }

    /// Routes one interaction event through the state machine and
    /// returns the action the caller must take; buffers are untouched.
    pub fn handle_event(&mut self, e: Event) -> (a: Action)
        requires
            old(self).wf(),
        ensures
            final(self).wf(),
            final(self).ui() == old(self).ui().spec_step(e).0,
            a == old(self).ui().spec_step(e).1,
            final(self).pattern_text() == old(self).pattern_text(),
            final(self).template_text() == old(self).template_text(),
            final(self).body_text() == old(self).body_text(),
            final(self).has_matcher() == old(self).has_matcher(),
            final(self).has_diagnostic() == old(self).has_diagnostic(),
    {
        let (next, a) = self.state.step(e);
        self.state = next;
        a
    }

    /// Routes a committed edit to the buffer the focus identifies; an
    /// edit for any other buffer is not applied.  A pattern edit
    /// triggers exactly one recompilation.
    pub fn commit_edit(&mut self, edit: BufferEdit) -> (applied: bool)
        requires
            old(self).wf(),
        ensures
            final(self).wf(),
            final(self).ui() == old(self).ui(),
            applied <==> edit_matches_focus(edit, old(self).ui().focus),
            !applied ==> *final(self) == *old(self),
            edit matches BufferEdit::Pattern(t) ==> (applied ==> (final(self).pattern_text() == t@
                && (final(self).has_matcher() <==> pattern_ok(t@))
                && final(self).template_text() == old(self).template_text()
                && final(self).body_text() == old(self).body_text())),
            edit matches BufferEdit::Substitution(t) ==> (applied ==> (final(self).template_text() == t@
                && final(self).pattern_text() == old(self).pattern_text()
                && final(self).body_text() == old(self).body_text()
                && final(self).has_matcher() == old(self).has_matcher())),
            edit matches BufferEdit::Body(t) ==> (applied ==> (final(self).body_text() == t@
                && final(self).pattern_text() == old(self).pattern_text()
                && final(self).template_text() == old(self).template_text()
                && final(self).has_matcher() == old(self).has_matcher())),
    {
        let focus = self.state.focus;
        match edit {
            BufferEdit::Pattern(text) => {
                match focus {
                    FocusTarget::Pattern => {
                        self.set_pattern(text);
                        true
                    },
                    _ => false,
                }
            },
            BufferEdit::Substitution(t) => {
                match focus {
                    FocusTarget::Substitution => {
                        self.set_template(t);
                        true
                    },
                    _ => false,
                }
            },
            BufferEdit::Body(t) => {
                match focus {
                    FocusTarget::Body => {
                        self.set_body(t);
                        true
                    },
                    _ => false,
                }
            },
        }
    }

    /// The styled segmentation of the body under the current matcher:
    /// with a matcher, exactly the segmenter model for its match spans;
    /// without one, a single plain segment spanning the whole body.
    /// Either way the segments tile the body exactly.
    pub fn segments(&self) -> (segs: Vec<Segment>)
        requires
            self.wf(),
        ensures
            self.has_matcher() ==> segs_match(
                segs@,
                segment_model(
                    self.body_text(),
                    match_spans_of(self.pattern_text(), self.body_text()),
                ),
            ),
            !self.has_matcher() ==> segs@.len() == 1 && segs@[0].text@ == self.body_text()
                && segs@[0].style == SegStyle::Plain,
            concat_segs(segs@, 0) == self.body_text(),
    {
        match &self.matcher {
            Some(m) => {
                let spans = m.find_spans(self.body.as_slice());
                segment(&self.body, &spans)
            },
            None => {
                let text = sub_bytes(&self.body, 0, self.body.len());
                let mut segs: Vec<Segment> = Vec::new();
                segs.push(Segment { text, style: SegStyle::Plain });
                proof {
                    assert(segs@[0].text@ =~= self.body@);
                    assert(concat_segs(segs@, 1) == Seq::<u8>::empty());
                    assert(concat_segs(segs@, 0) =~= self.body@);
                }
                segs
            },
        }
    }

    /// The capture table: one label per group (name, or index in
    /// decimal) and one row of cells per match, in match order.  The
    /// row count equals the match count of the segmenter's run sequence
    /// for the same body and matcher.  Without a matcher both parts are
    /// empty.
    pub fn capture_table(&self) -> (t: (Vec<Vec<u8>>, Vec<Vec<Vec<u8>>>))
        requires
            self.wf(),
        ensures
            self.has_matcher() ==> t.0@.len() == group_names_of(self.pattern_text()).len(),
            self.has_matcher() ==> forall|j: int|
                0 <= j < t.0@.len() ==> (#[trigger] t.0@[j])@ == label_model(
                    group_names_of(self.pattern_text()),
                    j,
                ),
            self.has_matcher() ==> t.1@.len() == capture_rows_of(
                self.pattern_text(),
                self.body_text(),
            ).len(),
            self.has_matcher() ==> capture_rows_of(self.pattern_text(), self.body_text()).len()
                == match_spans_of(self.pattern_text(), self.body_text()).len(),
            self.has_matcher() ==> t.1@.len() == match_count_model(
                run_model(
                    self.body_text(),
                    match_spans_of(self.pattern_text(), self.body_text()),
                    0,
                    0,
                ),
                0,
            ),
            self.has_matcher() ==> forall|i: int|
                0 <= i < t.1@.len() ==> (#[trigger] t.1@[i])@.len() == capture_rows_of(
                    self.pattern_text(),
                    self.body_text(),
                )[i].len(),
            self.has_matcher() ==> forall|i: int, j: int|
                0 <= i < t.1@.len() && 0 <= j < t.1@[i]@.len() ==> (#[trigger] t.1@[i]@[j])@
                    == cell_model(
                    self.body_text(),
                    capture_rows_of(self.pattern_text(), self.body_text())[i],
                    j,
                ),
            !self.has_matcher() ==> t.0@.len() == 0 && t.1@.len() == 0,
    {
        match &self.matcher {
            Some(m) => {
                let names = m.group_names();
                let labels = column_labels(names);
                let rows = m.capture_rows(self.body.as_slice());
                let cells = capture_cells(&self.body, &rows);
                proof {
                    crate::segmenter::lemma_runs_match_count(
                        self.body@,
                        match_spans_of(self.pattern@, self.body@),
                        0,
                        0,
                    );
                    assert forall|i: int| 0 <= i < rows@.len() implies rows_view(rows@)[i]
                        == rows@[i]@ by {}
                }
                (labels, cells)
            },
            None => (Vec::new(), Vec::new()),
        }
    }

    /// The substitution preview: with a matcher, the render model over
    /// its matches; without one, the body unchanged.  When the matcher
    /// has no matches in the body, the output is the body unchanged.
    pub fn render_substitution(&self) -> (out: Vec<u8>)
        requires
            self.wf(),
        ensures
            self.has_matcher() ==> out@ == render_model(
                self.body_text(),
                capture_rows_of(self.pattern_text(), self.body_text()),
                group_names_of(self.pattern_text()),
                self.template_text(),
            ),
            !self.has_matcher() ==> out@ == self.body_text(),
            (self.has_matcher() && capture_rows_of(self.pattern_text(), self.body_text()).len()
                == 0) ==> out@ == self.body_text(),
    {
        match &self.matcher {
            Some(m) => {
                let rows = m.capture_rows(self.body.as_slice());
                let names = m.group_names();
                render(&self.body, &rows, names, &self.template)
            },
            None => {
                let out = sub_bytes(&self.body, 0, self.body.len());
                proof {
                    assert(out@ =~= self.body@);
                }
                out
            },
        }
    }

    /// The result value of an export-output action: the substitution
    /// preview, or the body when no matcher is present.
    pub fn export_output(&self) -> (out: Vec<u8>)
        requires
            self.wf(),
        ensures
            self.has_matcher() ==> out@ == render_model(
                self.body_text(),
                capture_rows_of(self.pattern_text(), self.body_text()),
                group_names_of(self.pattern_text()),
                self.template_text(),
            ),
            !self.has_matcher() ==> out@ == self.body_text(),
    {
        self.render_substitution()
    }
}

} // verus!
