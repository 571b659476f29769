use vstd::prelude::*;

verus! {

/// Which editable buffer currently receives keystroke input.
#[derive(Clone, Copy, Debug, PartialEq, Eq, Structural)]
pub enum FocusTarget {
    Pattern,
    Substitution,
    Body,
}

/// Which auxiliary, non-editable panel is displayed.
#[derive(Clone, Copy, Debug, PartialEq, Eq, Structural)]
pub enum PanelMode {
    QuickReference,
    Captures,
}

/// Whether substitution-template editing and preview are active.
#[derive(Clone, Copy, Debug, PartialEq, Eq, Structural)]
pub enum TopLevelMode {
    MatchOnly,
    MatchAndSubstitute,
}

/// An abstract input event, already decoded from raw keystrokes by the
/// terminal driver.
#[derive(Clone, Copy, Debug, PartialEq, Eq, Structural)]
pub enum Event {
    ToggleFocus,
    TogglePanel,
    ToggleTopLevelMode,
    CommitEdit(FocusTarget),
    ExportPattern,
    ExportOutput,
    Quit,
}

/// What the caller driving the event loop must do after a transition.
#[derive(Clone, Copy, Debug, PartialEq, Eq, Structural)]
pub enum Action {
    Continue,
    Quit,
    EmitPattern,
    EmitOutput,
}

/// The complete interaction state: no hidden state exists beyond the three
/// buffers' contents and these three fields.
#[derive(Clone, Copy, Debug, PartialEq, Eq, Structural)]
pub struct InteractionState {
    pub focus: FocusTarget,
    pub panel: PanelMode,
    pub mode: TopLevelMode,
}

impl InteractionState {
    /// The focus target is a member of the focus set implied by the
    /// current top-level mode: Substitution is a valid focus only while
    /// substitution mode is active.
    pub open spec fn focus_valid(self) -> bool {
        self.mode is MatchOnly ==> !(self.focus is Substitution)
    }

    /// The startup state.
    pub open spec fn spec_init() -> InteractionState {
        InteractionState {
            focus: FocusTarget::Pattern,
            panel: PanelMode::Captures,
            mode: TopLevelMode::MatchOnly,
        }
    }

    pub fn init() -> (s: InteractionState)
        ensures
            s == InteractionState::spec_init(),
            s.focus_valid(),
    {
        InteractionState {
            focus: FocusTarget::Pattern,
            panel: PanelMode::Captures,
            mode: TopLevelMode::MatchOnly,
        }
    }

    /// Cycles the focus among the targets valid for the current mode, in
    /// the fixed order Pattern -> (Substitution ->) Body -> Pattern.
    pub open spec fn spec_toggle_focus(self) -> InteractionState {
        match self.focus {
            FocusTarget::Pattern => if self.mode is MatchOnly {
                InteractionState { focus: FocusTarget::Body, ..self }
            } else {
                InteractionState { focus: FocusTarget::Substitution, ..self }
            },
            FocusTarget::Substitution => InteractionState { focus: FocusTarget::Body, ..self },
            FocusTarget::Body => InteractionState { focus: FocusTarget::Pattern, ..self },
        }
    }

    /// Swaps the auxiliary panel; independent of focus.
    pub open spec fn spec_toggle_panel(self) -> InteractionState {
        match self.panel {
            PanelMode::QuickReference => InteractionState { panel: PanelMode::Captures, ..self },
            PanelMode::Captures => InteractionState { panel: PanelMode::QuickReference, ..self },
        }
    }

    /// Swaps the top-level mode; when substitution mode ends while the
    /// substitution field was focused, the focus falls back to Pattern.
    pub open spec fn spec_toggle_mode(self) -> InteractionState {
        match self.mode {
            TopLevelMode::MatchOnly => InteractionState { mode: TopLevelMode::MatchAndSubstitute, ..self },
            TopLevelMode::MatchAndSubstitute => {
                let s = InteractionState { mode: TopLevelMode::MatchOnly, ..self };
                if self.focus is Substitution {
                    InteractionState { focus: FocusTarget::Pattern, ..s }
                } else {
                    s
                }
            },
        }
    }

    /// The pure transition function: next state and required action for
    /// each event.  Edits leave the three fields unchanged; the Session
    /// routes their content to the focused buffer.
    pub open spec fn spec_step(self, e: Event) -> (InteractionState, Action) {
        match e {
            Event::ToggleFocus => (self.spec_toggle_focus(), Action::Continue),
            Event::TogglePanel => (self.spec_toggle_panel(), Action::Continue),
            Event::ToggleTopLevelMode => (self.spec_toggle_mode(), Action::Continue),
            Event::CommitEdit(_) => (self, Action::Continue),
            Event::ExportPattern => (self, Action::EmitPattern),
            Event::ExportOutput => (self, Action::EmitOutput),
            Event::Quit => (self, Action::Quit),
        }
    }

    pub fn toggle_focus(self) -> (s: InteractionState)
        ensures
            s == self.spec_toggle_focus(),
    {
        match self.focus {
            FocusTarget::Pattern => match self.mode {
                TopLevelMode::MatchOnly => InteractionState { focus: FocusTarget::Body, ..self },
                TopLevelMode::MatchAndSubstitute => InteractionState { focus: FocusTarget::Substitution, ..self },
            },
            FocusTarget::Substitution => InteractionState { focus: FocusTarget::Body, ..self },
            FocusTarget::Body => InteractionState { focus: FocusTarget::Pattern, ..self },
        }
    }

    pub fn toggle_panel(self) -> (s: InteractionState)
        ensures
            s == self.spec_toggle_panel(),
    {
        match self.panel {
            PanelMode::QuickReference => InteractionState { panel: PanelMode::Captures, ..self },
            PanelMode::Captures => InteractionState { panel: PanelMode::QuickReference, ..self },
        }
    }

    pub fn toggle_mode(self) -> (s: InteractionState)
        ensures
            s == self.spec_toggle_mode(),
    {
        match self.mode {
            TopLevelMode::MatchOnly => InteractionState { mode: TopLevelMode::MatchAndSubstitute, ..self },
            TopLevelMode::MatchAndSubstitute => {
                let s = InteractionState { mode: TopLevelMode::MatchOnly, ..self };
                match self.focus {
                    FocusTarget::Substitution => InteractionState { focus: FocusTarget::Pattern, ..s },
                    _ => s,
                }
            },
        }
    }

    pub fn step(self, e: Event) -> (r: (InteractionState, Action))
        ensures
            r == self.spec_step(e),
            self.focus_valid() ==> r.0.focus_valid(),
    {
        match e {
            Event::ToggleFocus => (self.toggle_focus(), Action::Continue),
            Event::TogglePanel => (self.toggle_panel(), Action::Continue),
            Event::ToggleTopLevelMode => (self.toggle_mode(), Action::Continue),
            Event::CommitEdit(_) => (self, Action::Continue),
            Event::ExportPattern => (self, Action::EmitPattern),
            Event::ExportOutput => (self, Action::EmitOutput),
            Event::Quit => (self, Action::Quit),
        }
    }
}

/// The state after a whole sequence of events, ignoring the actions.
pub open spec fn run_events(s: InteractionState, evs: Seq<Event>) -> InteractionState
    decreases evs.len(),
{
    if evs.len() == 0 {
        s
    } else {
        run_events(s.spec_step(evs[0]).0, evs.drop_first())
    }
}

/// Every single transition preserves focus validity.
pub proof fn lemma_step_preserves_focus_valid(s: InteractionState, e: Event)
    requires
        s.focus_valid(),
    ensures
        s.spec_step(e).0.focus_valid(),
{
}

/// After any sequence of transitions from a valid state, the focus target
/// is still a member of the focus set implied by the top-level mode.
pub proof fn lemma_focus_valid_after_events(s: InteractionState, evs: Seq<Event>)
    requires
        s.focus_valid(),
    ensures
        run_events(s, evs).focus_valid(),
    decreases evs.len(),
{
    if evs.len() > 0 {
        lemma_step_preserves_focus_valid(s, evs[0]);
        lemma_focus_valid_after_events(s.spec_step(evs[0]).0, evs.drop_first());
    }
}

} // verus!
