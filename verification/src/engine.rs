//! The marking session as a state machine.
//!
//! The engine decides; whoever drives it does the work. Each [`Action`] is a
//! request to the driver, and the [`Event`] that the driver hands back says
//! how it went:
//!
//! | action | events in answer |
//! |---|---|
//! | `OpenPane(i)` | `PaneOpened`, `PaneFailed` |
//! | `Render(i)` | `Rendered`, `Abort`, `Failure` |
//! | `AwaitSelection(i)`, `Reprompt(..)` | `Selected(k)`, `Unreadable`, `Abort`, `Failure` |
//! | `Advance { close }` | `PaneClosed`, `PaneFailed` |
//! | `Stop { close }` | none: the session is over |
//!
//! A session starts in `Presenting(0)`, with the request `OpenPane(0)`.
//! Criterion `i` is presented, then a selection is awaited; a selection out
//! of range, or input that is no selection, is answered by a new prompt and
//! changes nothing. A selection in range is recorded, and the session is
//! `Advancing` while the criterion's context pane is closed; then the next
//! criterion is presented, or after the last the session is `Finished`.
//!
//! The engine asks for a pane to be closed only where it was told that the
//! pane had opened, so a pane that failed to open is done without. On an
//! abort or a failure the pane of the current criterion is closed with the
//! `Stop`, and the session ends without a score.

use crate::scheme::{criterion_views, Scheme, SchemeView};
use vstd::prelude::*;
use vstd::string::*;

verus! {

/// A recorded decision: the choice taken for a criterion, both by position.
#[derive(Clone, Copy, Debug, PartialEq, Eq, Structural)]
pub struct Selection {
    pub criterion: usize,
    pub choice: usize,
}

/// Where a session stands.
#[derive(Clone, Copy, Debug, PartialEq, Eq, Structural)]
pub enum Phase {
    /// The criterion is being shown to the marker.
    Presenting(usize),
    /// The marker's selection for the criterion is awaited.
    AwaitingSelection(usize),
    /// A selection was recorded and the criterion is being left: its pane,
    /// if it has one, is being closed.
    Advancing,
    /// Every criterion has its selection.
    Finished,
    /// The marker gave the session up.
    Aborted,
    /// Showing a criterion or reading a selection failed.
    Failed,
}

/// What the driver reports to the engine.
#[derive(Clone, Copy, Debug, PartialEq, Eq, Structural)]
pub enum Event {
    /// The context pane that was asked for is open.
    PaneOpened,
    /// A pane could not be opened or closed.
    PaneFailed,
    /// The context pane is closed, or there was none to close.
    PaneClosed,
    /// The criterion and its choices are on the screen.
    Rendered,
    /// The marker committed the choice at this position, counted from 0.
    Selected(usize),
    /// The marker's input was no selection.
    Unreadable,
    /// The marker gives the session up.
    Abort,
    /// Showing the criterion or reading the selection failed.
    Failure,
}

/// The marker's input is no choice that the criterion has.
#[derive(Clone, Copy, Debug, PartialEq, Eq, Structural)]
pub struct InvalidSelectionError {
    pub criterion: usize,
    /// The position that was selected; none where the input was no
    /// selection at all.
    pub selected: Option<usize>,
    /// How many choices the criterion has.
    pub available: usize,
}

/// What the engine asks of the driver.
#[derive(Clone, Copy, Debug, PartialEq, Eq, Structural)]
pub enum Action {
    /// Open the context pane of this criterion.
    OpenPane(usize),
    /// Show this criterion and its choices.
    Render(usize),
    /// Wait for the marker's selection for this criterion.
    AwaitSelection(usize),
    /// Tell the marker that the selection was refused, and wait again.
    Reprompt(InvalidSelectionError),
    /// Leave the criterion that was marked; first close this pane, if any.
    Advance { close: Option<usize> },
    /// The session is over; first close this pane, if any.
    Stop { close: Option<usize> },
}

/// The points of the selections, summed.
pub open spec fn points_sum(scheme: SchemeView, selections: Seq<Selection>) -> int
    decreases selections.len(),
{
    if selections.len() == 0 {
        0
    } else {
        let last = selections.last();
        points_sum(scheme, selections.drop_last())
            + scheme.criteria[last.criterion as int].choices[last.choice as int].points
    }
}

/// The value of an [`Engine`].
pub struct EngineView {
    pub scheme: SchemeView,
    pub phase: Phase,
    /// The criterion that the session is at; the number of criteria once
    /// it has finished.
    pub cursor: nat,
    pub selections: Seq<Selection>,
    pub total: int,
    /// Whether the context pane of the criterion at the cursor is open.
    pub pane: bool,
}

impl EngineView {
    /// The state in which a session over `scheme` starts.
    pub open spec fn start(scheme: SchemeView) -> EngineView {
        EngineView {
            scheme,
            phase: Phase::Presenting(0),
            cursor: 0,
            selections: Seq::empty(),
            total: 0,
            pane: false,
        }
    }

    /// How many choices criterion `i` has.
    pub open spec fn choice_count(self, i: int) -> nat {
        self.scheme.criteria[i].choices.len()
    }

    /// Every selection is of the criterion at its place and of a choice
    /// which that criterion has.
    pub open spec fn selections_fit(self) -> bool {
        forall|j: int|
            0 <= j < self.selections.len() ==> {
                &&& (#[trigger] self.selections[j]).criterion == j
                &&& j < self.scheme.criteria.len()
                &&& self.selections[j].choice < self.choice_count(j)
            }
    }

    /// What holds of every state of a session.
    pub open spec fn well_formed(self) -> bool {
        let count = self.scheme.criteria.len();
        &&& self.scheme.well_formed()
        &&& count <= usize::MAX
        &&& self.selections_fit()
        &&& self.total == points_sum(self.scheme, self.selections)
        &&& match self.phase {
            Phase::Presenting(i) | Phase::AwaitingSelection(i) => {
                &&& i == self.cursor
                &&& self.cursor < count
                &&& self.selections.len() == self.cursor
            },
            Phase::Advancing => {
                &&& self.cursor < count
                &&& self.selections.len() == self.cursor + 1
            },
            Phase::Finished => {
                &&& self.cursor == count
                &&& self.selections.len() == count
                &&& !self.pane
            },
            Phase::Aborted | Phase::Failed => {
                &&& self.cursor < count
                &&& self.selections.len() == self.cursor
                &&& !self.pane
            },
        }
    }

    /// Whether the session is over.
    pub open spec fn is_over(self) -> bool {
        self.phase is Finished || self.phase is Aborted || self.phase is Failed
    }

    /// The pane that the engine holds open, by its criterion.
    pub open spec fn held_pane(self) -> Option<usize> {
        if self.pane {
            Some(self.cursor as usize)
        } else {
            None
        }
    }

    /// The session given up or failed: it ends in `phase`, and what pane
    /// there is gets closed.
    pub open spec fn stop(self, phase: Phase) -> (EngineView, Action) {
        (EngineView { phase, pane: false, ..self }, Action::Stop { close: self.held_pane() })
    }

    /// The criterion at the cursor is left behind: the next one is
    /// presented, or the session has finished.
    pub open spec fn advance(self) -> (EngineView, Action) {
        let next = self.cursor + 1;
        if next < self.scheme.criteria.len() {
            (
                EngineView {
                    phase: Phase::Presenting(next as usize),
                    cursor: next as nat,
                    pane: false,
                    ..self
                },
                Action::OpenPane(next as usize),
            )
        } else {
            (
                EngineView { phase: Phase::Finished, cursor: next as nat, pane: false, ..self },
                Action::Stop { close: None },
            )
        }
    }

    /// The choice at `choice` is recorded for the criterion at the cursor,
    /// and the criterion is about to be left.
    pub open spec fn select(self, choice: usize) -> (EngineView, Action) {
        (
            EngineView {
                phase: Phase::Advancing,
                selections: self.selections.push(
                    Selection { criterion: self.cursor as usize, choice },
                ),
                total: self.total
                    + self.scheme.criteria[self.cursor as int].choices[choice as int].points,
                ..self
            },
            Action::Advance { close: self.held_pane() },
        )
    }

    /// Why the marker's input is refused at the criterion at the cursor.
    pub open spec fn refusal(self, selected: Option<usize>) -> InvalidSelectionError {
        InvalidSelectionError {
            criterion: self.cursor as usize,
            selected,
            available: self.choice_count(self.cursor as int) as usize,
        }
    }

    /// The state after `event`, and what the engine then asks for.
    pub open spec fn step(self, event: Event) -> (EngineView, Action) {
        let at = self.cursor as usize;
        match self.phase {
            Phase::Presenting(_) => match event {
                Event::PaneOpened => (EngineView { pane: true, ..self }, Action::Render(at)),
                Event::Rendered => (
                    EngineView { phase: Phase::AwaitingSelection(at), ..self },
                    Action::AwaitSelection(at),
                ),
                Event::Abort => self.stop(Phase::Aborted),
                Event::Failure => self.stop(Phase::Failed),
                _ => (self, Action::Render(at)),
            },
            Phase::AwaitingSelection(_) => match event {
                Event::Selected(choice) => if choice < self.choice_count(self.cursor as int) {
                    self.select(choice)
                } else {
                    (self, Action::Reprompt(self.refusal(Some(choice))))
                },
                Event::Unreadable => (self, Action::Reprompt(self.refusal(None))),
                Event::Abort => self.stop(Phase::Aborted),
                Event::Failure => self.stop(Phase::Failed),
                _ => (self, Action::AwaitSelection(at)),
            },
            Phase::Advancing => match event {
                Event::PaneClosed | Event::PaneFailed => self.advance(),
                _ => (self, Action::Advance { close: self.held_pane() }),
            },
            Phase::Finished | Phase::Aborted | Phase::Failed => (
                self,
                Action::Stop { close: None },
            ),
        }
    }

    /// The state after these events, one after the other.
    pub open spec fn run(self, events: Seq<Event>) -> EngineView
        decreases events.len(),
    {
        if events.len() == 0 {
            self
        } else {
            self.step(events.first()).0.run(events.drop_first())
        }
    }

    /// What the engine asks for after each of these events, in order.
    pub open spec fn answers(self, events: Seq<Event>) -> Seq<Action>
        decreases events.len(),
    {
        if events.len() == 0 {
            Seq::empty()
        } else {
            let (next, action) = self.step(events.first());
            seq![action] + next.answers(events.drop_first())
        }
    }
}

/// What a session came to.
#[derive(Clone, Debug, PartialEq, Eq)]
pub enum Outcome {
    /// Every criterion was marked: the total, and the selections in marking
    /// order.
    Finished { total: i128, selections: Vec<Selection> },
    /// The marker gave the session up. There is no score.
    AbortedByUser,
    /// Showing a criterion or reading a selection failed. There is no score.
    Failed,
}

/// Whether `outcome` is what a session in state `state` came to: none
/// while it goes on.
pub open spec fn outcome_of(state: EngineView, outcome: Option<Outcome>) -> bool {
    match state.phase {
        Phase::Finished => outcome matches Some(Outcome::Finished { total, selections })
            && total == state.total && selections@ == state.selections,
        Phase::Aborted => outcome == Some(Outcome::AbortedByUser),
        Phase::Failed => outcome == Some(Outcome::Failed),
        _ => outcome is None,
    }
}

/// The prompt and the label of each selection, in marking order.
pub open spec fn trail_of(scheme: SchemeView, selections: Seq<Selection>) -> Seq<
    (Seq<char>, Seq<char>),
> {
    Seq::new(
        selections.len(),
        |j: int|
            {
                let criterion = scheme.criteria[selections[j].criterion as int];
                (criterion.prompt, criterion.choices[selections[j].choice as int].label)
            },
    )
}

/// The values of a run of pairs of strings.
pub open spec fn pair_views(pairs: Seq<(String, String)>) -> Seq<(Seq<char>, Seq<char>)> {
    Seq::new(pairs.len(), |j: int| (pairs[j].0@, pairs[j].1@))
}

/// What the marker has decided so far: the criterion that the session is
/// at, the selections recorded, and the running total of their points.
#[derive(Debug, PartialEq, Eq)]
pub struct MarkingState {
    pub cursor: usize,
    pub selections: Vec<Selection>,
    pub total: i128,
}

/// A marking session over a scheme.
#[derive(Debug, PartialEq, Eq)]
pub struct Engine {
    pub(crate) scheme: Scheme,
    pub(crate) phase: Phase,
    pub(crate) marks: MarkingState,
    pub(crate) pane: bool,
}

impl View for Engine {
    type V = EngineView;

    open(crate) spec fn view(&self) -> EngineView {
        EngineView {
            scheme: self.scheme@,
            phase: self.phase,
            cursor: self.marks.cursor as nat,
            selections: self.marks.selections@,
            total: self.marks.total as int,
            pane: self.pane,
        }
    }
}

/// The most that one choice adds to a total, either way.
const STEP: i128 = 0x8000_0000_0000_0000;

impl Engine {
    #[verifier::type_invariant]
    spec fn holds(&self) -> bool {
        &&& self@.well_formed()
        &&& -STEP * self.marks.selections@.len() <= self.marks.total <= STEP
            * self.marks.selections@.len()
    }

    /// A session over `scheme`, and the first request.
    pub fn start(scheme: Scheme) -> (started: (Engine, Action))
        ensures
            started.0@ == EngineView::start(scheme@),
            started.0@.well_formed(),
            started.1 == Action::OpenPane(0),
    {
        let count = scheme.criteria().len();
        assert(scheme@.criteria.len() == count);
        let engine = Engine {
            scheme,
            phase: Phase::Presenting(0),
            marks: MarkingState { cursor: 0, selections: Vec::new(), total: 0 },
            pane: false,
        };
        (engine, Action::OpenPane(0))
    }

    /// The scheme that is marked against.
    pub fn scheme(&self) -> (scheme: &Scheme)
        ensures
            scheme@ == self@.scheme,
    {
        &self.scheme
    }

    /// Where the session stands.
    pub fn phase(&self) -> (phase: Phase)
        ensures
            phase == self@.phase,
    {
        self.phase
    }

    /// What the marker has decided so far. The total in it is the running
    /// one: it is final only in the outcome of a finished session.
    pub fn marks(&self) -> (marks: &MarkingState)
        ensures
            self@.well_formed(),
            marks.cursor == self@.cursor,
            marks.selections@ == self@.selections,
            marks.total == self@.total,
    {
        proof {
            use_type_invariant(self);
        }
        &self.marks
    }

    /// The pane that the engine holds open, by its criterion.
    pub fn held_pane(&self) -> (pane: Option<usize>)
        ensures
            pane == self@.held_pane(),
    {
        if self.pane {
            Some(self.marks.cursor)
        } else {
            None
        }
    }

    /// What the session came to: nothing while it goes on, the total and
    /// the selections once it has finished, and no score where it was given
    /// up or failed.
    pub fn outcome(&self) -> (outcome: Option<Outcome>)
        ensures
            self@.well_formed(),
            outcome_of(self@, outcome),
    {
        proof {
            use_type_invariant(self);
        }
        match self.phase {
            Phase::Finished => {
                let mut selections: Vec<Selection> = Vec::new();
                let mut j: usize = 0;
                while j < self.marks.selections.len()
                    invariant
                        j <= self.marks.selections@.len(),
                        selections@ == self.marks.selections@.take(j as int),
                    decreases self.marks.selections@.len() - j,
                {
                    selections.push(self.marks.selections[j]);
                    proof {
                        assert(self.marks.selections@.take(j + 1) =~= self.marks.selections@.take(
                            j as int,
                        ).push(self.marks.selections@[j as int]));
                    }
                    j += 1;
                }
                proof {
                    assert(self.marks.selections@.take(j as int) =~= self.marks.selections@);
                }
                Some(Outcome::Finished { total: self.marks.total, selections })
            },
            Phase::Aborted => Some(Outcome::AbortedByUser),
            Phase::Failed => Some(Outcome::Failed),
            _ => None,
        }
    }

    /// The prompt of each criterion marked so far with the label of the
    /// choice taken, in marking order.
    pub fn trail(&self) -> (trail: Vec<(String, String)>)
        ensures
            self@.well_formed(),
            pair_views(trail@) == trail_of(self@.scheme, self@.selections),
    {
        proof {
            use_type_invariant(self);
        }
        let criteria = self.scheme.criteria();
        let ghost wanted = trail_of(self@.scheme, self@.selections);
        let mut trail: Vec<(String, String)> = Vec::new();
        let mut j: usize = 0;
        while j < self.marks.selections.len()
            invariant
                self@.well_formed(),
                criterion_views(criteria@) == self@.scheme.criteria,
                wanted == trail_of(self@.scheme, self@.selections),
                j <= self.marks.selections@.len(),
                trail@.len() == j,
                pair_views(trail@) == wanted.take(j as int),
            decreases self.marks.selections@.len() - j,
        {
            let selection = self.marks.selections[j];
            assert(self@.selections[j as int] == selection);
            let criterion = &criteria[selection.criterion];
            assert(criterion@ == self@.scheme.criteria[selection.criterion as int]);
            let choices = criterion.choices();
            let choice = &choices[selection.choice];
            assert(choice@ == criterion@.choices[selection.choice as int]);
            let pair = (String::from_str(criterion.prompt()), choice.label.clone());
            proof {
                let longer = pair_views(trail@.push(pair));
                assert(longer[j as int] == (pair.0@, pair.1@));
                assert(wanted[j as int] == (criterion@.prompt, choice@.label));
                assert forall|i: int| 0 <= i < j implies longer[i] == wanted.take(j + 1)[i] by {
                    assert(longer[i] == pair_views(trail@)[i]);
                    assert(wanted.take(j as int)[i] == wanted[i]);
                }
                assert(longer =~= wanted.take(j + 1));
            }
            trail.push(pair);
            j += 1;
        }
        proof {
            assert(wanted.take(j as int) =~= wanted);
        }
        trail
    }

    /// The session ends in `phase` without a score; what pane there is
    /// gets closed.
    fn stop(self, phase: Phase) -> (next: (Engine, Action))
        requires
            phase is Aborted || phase is Failed,
            self@.phase is Presenting || self@.phase is AwaitingSelection,
        ensures
            next.0@.well_formed(),
            (next.0@, next.1) == self@.stop(phase),
    {
        proof {
            use_type_invariant(&self);
        }
        let close = if self.pane { Some(self.marks.cursor) } else { None };
        (Engine { phase, pane: false, ..self }, Action::Stop { close })
    }

    /// The criterion at the cursor, which has its selection, is left.
    fn advance(self) -> (next: (Engine, Action))
        requires
            self@.phase is Advancing,
        ensures
            next.0@.well_formed(),
            (next.0@, next.1) == self@.advance(),
    {
        proof {
            use_type_invariant(&self);
        }
        let Engine { scheme, phase: _, marks, pane: _ } = self;
        let MarkingState { cursor, selections, total } = marks;
        let next = cursor + 1;
        if next < scheme.criteria().len() {
            (
                Engine {
                    scheme,
                    phase: Phase::Presenting(next),
                    marks: MarkingState { cursor: next, selections, total },
                    pane: false,
                },
                Action::OpenPane(next),
            )
        } else {
            (
                Engine {
                    scheme,
                    phase: Phase::Finished,
                    marks: MarkingState { cursor: next, selections, total },
                    pane: false,
                },
                Action::Stop { close: None },
            )
        }
    }

    /// The state after `event`, and what the engine asks for next. A session
    /// that is over stays as it is.
    pub fn step(self, event: Event) -> (next: (Engine, Action))
        ensures
            self@.well_formed(),
            next.0@.well_formed(),
            (next.0@, next.1) == self@.step(event),
    {
        proof {
            use_type_invariant(&self);
        }
        let at = self.marks.cursor;
        match self.phase {
            Phase::Presenting(_) => match event {
                Event::PaneOpened => (Engine { pane: true, ..self }, Action::Render(at)),
                Event::Rendered => (
                    Engine { phase: Phase::AwaitingSelection(at), ..self },
                    Action::AwaitSelection(at),
                ),
                Event::Abort => self.stop(Phase::Aborted),
                Event::Failure => self.stop(Phase::Failed),
                _ => (self, Action::Render(at)),
            },
            Phase::AwaitingSelection(_) => match event {
                Event::Selected(choice) => self.select(choice),
                Event::Unreadable => {
                    let refusal = self.refusal(None);
                    (self, Action::Reprompt(refusal))
                },
                Event::Abort => self.stop(Phase::Aborted),
                Event::Failure => self.stop(Phase::Failed),
                _ => (self, Action::AwaitSelection(at)),
            },
            Phase::Advancing => match event {
                Event::PaneClosed | Event::PaneFailed => self.advance(),
                _ => {
                    let close = self.held_pane();
                    (self, Action::Advance { close })
                },
            },
            Phase::Finished | Phase::Aborted | Phase::Failed => (
                self,
                Action::Stop { close: None },
            ),
        }
    }

    /// Why the marker's input is refused at the criterion at the cursor.
    fn refusal(&self, selected: Option<usize>) -> (refusal: InvalidSelectionError)
        requires
            self@.phase is AwaitingSelection,
        ensures
            refusal == self@.refusal(selected),
    {
        proof {
            use_type_invariant(self);
        }
        let at = self.marks.cursor;
        let criteria = self.scheme.criteria();
        assert(criteria@[at as int]@ == self@.scheme.criteria[at as int]);
        InvalidSelectionError { criterion: at, selected, available: criteria[at].choices().len() }
    }

    /// The marker's selection for the criterion at the cursor: recorded
    /// where the criterion has that choice, refused where it has not.
    fn select(self, choice: usize) -> (next: (Engine, Action))
        requires
            self@.phase is AwaitingSelection,
        ensures
            next.0@.well_formed(),
            (next.0@, next.1) == self@.step(Event::Selected(choice)),
    {
        proof {
            use_type_invariant(&self);
        }
        let at = self.marks.cursor;
        let criteria = self.scheme.criteria();
        let choices = criteria[at].choices();
        assert(criteria@[at as int]@ == self@.scheme.criteria[at as int]);
        if choice >= choices.len() {
            let refusal = self.refusal(Some(choice));
            return (self, Action::Reprompt(refusal));
        }
        let points = choices[choice].points;
        assert(choices@[choice as int]@ == self@.scheme.criteria[at as int].choices[choice as int]);
        let close = self.held_pane();
        let Engine { scheme, phase: _, marks, pane } = self;
        let MarkingState { cursor, mut selections, total } = marks;
        let selection = Selection { criterion: at, choice };
        proof {
            assert(selections@.push(selection).drop_last() =~= selections@);
        }
        selections.push(selection);
        let marks = MarkingState { cursor, selections, total: total + points as i128 };
        (Engine { scheme, phase: Phase::Advancing, marks, pane }, Action::Advance { close })
    }
}

} // verus!
