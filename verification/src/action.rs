//! What the server has been asked to do next, queued until the main loop
//! takes it up.

use vstd::prelude::*;

verus! {

/// Why a linter run was asked for.
#[derive(Debug, PartialEq, Eq, Clone, Copy, Structural)]
pub enum LintReason {
    Change,
    Save,
}

/// The token under which the progress of a build is reported.
#[derive(Debug, PartialEq, Eq, Clone)]
pub enum ProgressToken {
    Number(i32),
    Text(String),
}

/// Something for the main loop to do. Documents are named by their URI.
#[derive(Debug, PartialEq, Eq, Clone)]
pub enum Action {
    LoadDistribution,
    DetectRoot(Vec<u8>),
    PublishDiagnostics,
    RunLinter(Vec<u8>, LintReason),
    Build(Vec<u8>),
    CancelBuild(ProgressToken),
}

/// An action, as plain values.
pub ghost enum ActionView {
    LoadDistribution,
    DetectRoot(Seq<u8>),
    PublishDiagnostics,
    RunLinter(Seq<u8>, LintReason),
    Build(Seq<u8>),
    CancelBuild(ProgressToken),
}

impl View for Action {
    type V = ActionView;

    open spec fn view(&self) -> ActionView {
        match self {
            Action::LoadDistribution => ActionView::LoadDistribution,
            Action::DetectRoot(uri) => ActionView::DetectRoot(uri@),
            Action::PublishDiagnostics => ActionView::PublishDiagnostics,
            Action::RunLinter(uri, reason) => ActionView::RunLinter(uri@, *reason),
            Action::Build(uri) => ActionView::Build(uri@),
            Action::CancelBuild(token) => ActionView::CancelBuild(*token),
        }
    }
}

/// Each of some actions, as plain values.
pub open spec fn views(actions: Seq<Action>) -> Seq<ActionView> {
    Seq::new(actions.len(), |k: int| actions[k]@)
}

/// The actions that wait, oldest first.
#[derive(Debug, Default)]
pub struct ActionManager {
    actions: Vec<Action>,
}

impl View for ActionManager {
    type V = Seq<Action>;

    closed spec fn view(&self) -> Seq<Action> {
        self.actions@
    }
}

impl ActionManager {
    /// A manager with nothing waiting.
    pub fn new() -> (manager: ActionManager)
        ensures
            manager@ == Seq::<Action>::empty(),
    {
        ActionManager { actions: Vec::new() }
    }

    /// Queues an action behind those that wait.
    pub fn push(&mut self, action: Action)
        ensures
            final(self)@ == old(self)@.push(action),
    {
        self.actions.push(action);
    }

    /// Takes all waiting actions, oldest first, and leaves none.
    pub fn take(&mut self) -> (taken: Vec<Action>)
        ensures
            taken@ == old(self)@,
            final(self)@ == Seq::<Action>::empty(),
    {
        let mut taken: Vec<Action> = Vec::new();
        std::mem::swap(&mut self.actions, &mut taken);
        taken
    }
}

} // verus!
