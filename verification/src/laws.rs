//! What holds of every rubric text and of every marking session.

use crate::engine::{outcome_of, points_sum, Action, EngineView, Event, Outcome, Phase, Selection};
use crate::grammar::{
    close, lines, read_line, read_lines, scheme_of, Draft, SchemeFault, SchemeFormatError,
};
use crate::parse::parsed_as;
use crate::scheme::{Scheme, SchemeView};
use vstd::prelude::*;

verus! {

/// Reading is a function of the text: two readings of one text give schemes
/// with the same criteria and choices in the same order and with the same
/// points, or the same fault.
pub proof fn law_parse_is_deterministic(
    text: Seq<char>,
    once: Result<Scheme, SchemeFormatError>,
    again: Result<Scheme, SchemeFormatError>,
)
    requires
        parsed_as(text, once),
        parsed_as(text, again),
    ensures
        match (once, again) {
            (Ok(first), Ok(second)) => first@ == second@,
            (Err(first), Err(second)) => first == second,
            _ => false,
        },
{
}

/// Lines put together again, with a line feed between each two.
pub open spec fn joined(lines: Seq<Seq<char>>) -> Seq<char>
    decreases lines.len(),
{
    if lines.len() == 0 {
        Seq::empty()
    } else if lines.len() == 1 {
        lines[0]
    } else {
        joined(lines.drop_last()).push('\n') + lines.last()
    }
}

/// The lines of a text are what stands between its line feeds: there is at
/// least one line, none holds a line feed, and put together again they are
/// the text.
pub proof fn law_lines_split_at_line_feeds(text: Seq<char>)
    ensures
        lines(text).len() > 0,
        forall|i: int, j: int|
            0 <= i < lines(text).len() && 0 <= j < lines(text)[i].len() ==> lines(text)[i][j]
                != '\n',
        joined(lines(text)) == text,
    decreases text.len(),
{
    if text.len() == 0 {
        assert(joined(lines(text)) =~= text);
    } else {
        let front = text.drop_last();
        let before = lines(front);
        law_lines_split_at_line_feeds(front);
        if text.last() == '\n' {
            assert(before.push(Seq::empty()).drop_last() =~= before);
            assert(joined(lines(text)) =~= text);
        } else {
            let last = before.last().push(text.last());
            let after = before.drop_last().push(last);
            assert(after.drop_last() =~= before.drop_last());
            assert forall|i: int, j: int|
                0 <= i < after.len() && 0 <= j < after[i].len() implies after[i][j] != '\n' by {
                if i < after.len() - 1 {
                    assert(after[i] == before[i]);
                } else if j < before.last().len() {
                    assert(after[i][j] == before[i][j]);
                }
            }
            assert(joined(after) =~= joined(before).push(text.last()));
            assert(joined(before).push(text.last()) =~= text);
        }
    }
}

/// The text without a character writes no scheme.
pub proof fn law_empty_text_is_no_scheme()
    ensures
        scheme_of(Seq::empty()) == Err::<SchemeView, SchemeFormatError>(
            SchemeFormatError { kind: SchemeFault::Empty, line: 0 },
        ),
{
    let only = lines(Seq::empty());
    assert(only =~= seq![Seq::<char>::empty()]);
    assert(only.drop_last() =~= Seq::empty());
    assert(read_lines(only.drop_last()) == Ok::<Draft, SchemeFormatError>(
        Draft { criteria: Seq::empty(), opened: 0 },
    ));
}

/// In a draft every criterion but the last has a choice.
spec fn all_but_last_have_choices(draft: Draft) -> bool {
    forall|i: int| 0 <= i < draft.criteria.len() - 1 ==> (#[trigger] draft.criteria[i]).choices.len() > 0
}

/// Reading lines keeps every criterion but the last with a choice.
proof fn lemma_drafts_have_choices(read: Seq<Seq<char>>)
    ensures
        read_lines(read) matches Ok(draft) ==> all_but_last_have_choices(draft),
    decreases read.len(),
{
    if read.len() > 0 {
        lemma_drafts_have_choices(read.drop_last());
        if let Ok(before) = read_lines(read.drop_last()) {
            if let Ok(after) = read_line(before, read.len(), read.last()) {
                assert forall|i: int| 0 <= i < after.criteria.len() - 1 implies (
                #[trigger] after.criteria[i]).choices.len() > 0 by {
                    if i < before.criteria.len() - 1 {
                        assert(after.criteria[i] == before.criteria[i]);
                    }
                }
            }
        }
    }
}

/// What a text writes is a scheme: it has a criterion, and each criterion
/// has a choice.
pub proof fn law_scheme_of_is_well_formed(text: Seq<char>)
    ensures
        scheme_of(text) matches Ok(scheme) ==> scheme.well_formed(),
{
    lemma_drafts_have_choices(lines(text));
}

/// A session starts well-formed.
pub proof fn law_start_is_well_formed(scheme: SchemeView)
    requires
        scheme.well_formed(),
        scheme.criteria.len() <= usize::MAX,
    ensures
        EngineView::start(scheme).well_formed(),
{
}

/// Whatever the driver reports, a well-formed session stays well-formed: the
/// selections are one for each criterion left behind, in order, each of a
/// choice that its criterion has, and the total is the sum of their points.
pub proof fn law_step_keeps_well_formed(state: EngineView, event: Event)
    requires
        state.well_formed(),
    ensures
        state.step(event).0.well_formed(),
{
    if state.phase is AwaitingSelection {
        if let Event::Selected(choice) = event {
            if choice < state.choice_count(state.cursor as int) {
                let selection = Selection { criterion: state.cursor as usize, choice };
                assert(state.selections.push(selection).drop_last() =~= state.selections);
            }
        }
    }
}

/// A well-formed session stays well-formed over any run of events.
pub proof fn law_run_keeps_well_formed(state: EngineView, events: Seq<Event>)
    requires
        state.well_formed(),
    ensures
        state.run(events).well_formed(),
    decreases events.len(),
{
    if events.len() > 0 {
        law_step_keeps_well_formed(state, events.first());
        law_run_keeps_well_formed(state.step(events.first()).0, events.drop_first());
    }
}

/// At any point of any session, the total is the sum of the points of the
/// selections recorded so far, and of nothing else.
pub proof fn law_total_is_sum_of_selections(scheme: SchemeView, events: Seq<Event>)
    requires
        scheme.well_formed(),
        scheme.criteria.len() <= usize::MAX,
    ensures
        ({
            let state = EngineView::start(scheme).run(events);
            state.total == points_sum(scheme, state.selections)
        }),
{
    law_run_keeps_scheme(EngineView::start(scheme), events);
    law_run_keeps_well_formed(EngineView::start(scheme), events);
}

/// The score of a finished session is the sum of the points of its
/// selections, of which there is one for each criterion, in order, each of a
/// choice that its criterion has.
pub proof fn law_final_total_is_sum_of_selections(
    scheme: SchemeView,
    events: Seq<Event>,
    outcome: Option<Outcome>,
)
    requires
        scheme.well_formed(),
        scheme.criteria.len() <= usize::MAX,
        outcome_of(EngineView::start(scheme).run(events), outcome),
    ensures
        outcome matches Some(Outcome::Finished { total, selections }) ==> {
            &&& total == points_sum(scheme, selections@)
            &&& selections@.len() == scheme.criteria.len()
            &&& forall|j: int|
                0 <= j < selections@.len() ==> {
                    &&& (#[trigger] selections@[j]).criterion == j
                    &&& selections@[j].choice < scheme.criteria[j].choices.len()
                }
        },
{
    law_run_keeps_scheme(EngineView::start(scheme), events);
    law_run_keeps_well_formed(EngineView::start(scheme), events);
}

/// No event changes the scheme.
pub proof fn law_run_keeps_scheme(state: EngineView, events: Seq<Event>)
    ensures
        state.run(events).scheme == state.scheme,
    decreases events.len(),
{
    if events.len() > 0 {
        law_run_keeps_scheme(state.step(events.first()).0, events.drop_first());
    }
}

/// A selection that the criterion does not have, or that comes when none is
/// awaited, changes nothing: not the cursor, not the total, not the
/// selections. Where a selection is awaited, the marker is asked again.
pub proof fn law_refused_selection_changes_nothing(state: EngineView, choice: usize)
    requires
        !(state.phase is AwaitingSelection && choice < state.choice_count(state.cursor as int)),
    ensures
        state.step(Event::Selected(choice)).0 == state,
        state.phase is AwaitingSelection ==> state.step(Event::Selected(choice)).1
            == Action::Reprompt(state.refusal(Some(choice))),
{
}

/// While a selection is awaited there is one that is accepted: the first
/// choice, which every criterion has.
pub proof fn law_a_selection_is_always_possible(state: EngineView)
    requires
        state.well_formed(),
        state.phase is AwaitingSelection,
    ensures
        state.step(Event::Selected(0)).0.selections == state.selections.push(
            Selection { criterion: state.cursor as usize, choice: 0 },
        ),
        state.step(Event::Selected(0)).0.total == state.total
            + state.scheme.criteria[state.cursor as int].choices[0].points,
{
}

/// Nothing but a selection records a selection or changes the total.
pub proof fn law_only_a_selection_counts(state: EngineView, event: Event)
    requires
        !(event is Selected),
    ensures
        state.step(event).0.selections == state.selections,
        state.step(event).0.total == state.total,
{
}

/// An abort while a criterion is presented or its selection awaited ends
/// the session as aborted, without a score, and the pane that the engine
/// holds is closed with it: none is left open.
pub proof fn law_abort_closes_the_pane(state: EngineView)
    requires
        state.well_formed(),
        state.phase is Presenting || state.phase is AwaitingSelection,
    ensures
        ({
            let (next, action) = state.step(Event::Abort);
            &&& next.phase == Phase::Aborted
            &&& outcome_of(next, Some(Outcome::AbortedByUser))
            &&& !next.pane
            &&& action == Action::Stop { close: state.held_pane() }
            &&& next.cursor == state.cursor
            &&& next.selections == state.selections
            &&& next.total == state.total
        }),
{
}

/// A session that is over stays as it is, whatever is reported.
pub proof fn law_over_is_final(state: EngineView, events: Seq<Event>)
    requires
        state.is_over(),
    ensures
        state.run(events) == state,
    decreases events.len(),
{
    if events.len() > 0 {
        law_over_is_final(state, events.drop_first());
    }
}

/// The engine asks to close only the pane that it holds, which is the one
/// of the criterion at the cursor; and it holds a pane only after it was
/// told that the pane had opened.
pub proof fn law_closes_only_its_pane(state: EngineView, event: Event)
    requires
        state.well_formed(),
    ensures
        ({
            let (next, action) = state.step(event);
            &&& action matches Action::Advance { close: Some(pane) } ==> state.held_pane() == Some(
                pane,
            )
            &&& action matches Action::Stop { close: Some(pane) } ==> state.held_pane() == Some(pane)
            &&& next.pane ==> state.pane || event == Event::PaneOpened
            &&& next.is_over() ==> !next.pane
        }),
{
}

/// What the driver reports while one criterion is marked with the choice
/// at `pick`: with a context pane that opens, or with one that fails to
/// open.
pub open spec fn visit(pane: bool, pick: usize) -> Seq<Event> {
    seq![
        if pane { Event::PaneOpened } else { Event::PaneFailed },
        Event::Rendered,
        Event::Selected(pick),
        Event::PaneClosed,
    ]
}

/// What the driver reports over a session in which the criteria are marked
/// one after the other with the choices at `picks`.
pub open spec fn visits(picks: Seq<usize>, panes: Seq<bool>) -> Seq<Event>
    decreases picks.len(),
{
    if picks.len() == 0 {
        Seq::empty()
    } else {
        visits(picks.drop_last(), panes.drop_last()) + visit(panes.last(), picks.last())
    }
}

/// The selections of the choices at `picks`, one for each criterion in
/// order.
pub open spec fn picked(picks: Seq<usize>) -> Seq<Selection> {
    Seq::new(picks.len(), |i: int| Selection { criterion: i as usize, choice: picks[i] })
}

/// What the engine asks for while criterion `at` is marked: to show it, to
/// wait for the selection, to leave it and close its pane where it has one,
/// and then to go on to the next criterion, or to stop after the last.
pub open spec fn asked(at: usize, pane: bool, last: bool) -> Seq<Action> {
    seq![
        Action::Render(at),
        Action::AwaitSelection(at),
        Action::Advance { close: if pane { Some(at) } else { None } },
        if last { Action::Stop { close: None } } else { Action::OpenPane((at + 1) as usize) },
    ]
}

/// What the engine asks for over a session in which the first criteria of
/// `count` are marked one after the other.
pub open spec fn asked_over(count: nat, panes: Seq<bool>) -> Seq<Action>
    decreases panes.len(),
{
    if panes.len() == 0 {
        Seq::empty()
    } else {
        asked_over(count, panes.drop_last()) + asked(
            (panes.len() - 1) as usize,
            panes.last(),
            panes.len() == count,
        )
    }
}

/// A run over two runs of events is the run over the second from where the
/// first ends, and so are the requests.
pub proof fn law_run_in_parts(state: EngineView, first: Seq<Event>, second: Seq<Event>)
    ensures
        state.run(first + second) == state.run(first).run(second),
        state.answers(first + second) == state.answers(first) + state.run(first).answers(second),
    decreases first.len(),
{
    if first.len() == 0 {
        assert(first + second =~= second);
        assert(state.answers(first) + state.answers(second) =~= state.answers(second));
    } else {
        let (next, action) = state.step(first.first());
        assert((first + second).first() == first.first());
        assert((first + second).drop_first() =~= first.drop_first() + second);
        law_run_in_parts(next, first.drop_first(), second);
        assert(seq![action] + (next.answers(first.drop_first()) + next.run(
            first.drop_first(),
        ).answers(second)) =~= (seq![action] + next.answers(first.drop_first())) + next.run(
            first.drop_first(),
        ).answers(second));
    }
}

/// Marking one criterion with a choice that it has records that choice and
/// leads to the next criterion, or to the end after the last.
proof fn lemma_visit(state: EngineView, pane: bool, pick: usize)
    requires
        state.well_formed(),
        state.phase is Presenting,
        !state.pane,
        pick < state.choice_count(state.cursor as int),
    ensures
        ({
            let next = state.run(visit(pane, pick));
            let last = state.cursor + 1 == state.scheme.criteria.len();
            &&& next.scheme == state.scheme
            &&& next.phase == if last {
                Phase::Finished
            } else {
                Phase::Presenting((state.cursor + 1) as usize)
            }
            &&& next.cursor == state.cursor + 1
            &&& next.selections == state.selections.push(
                Selection { criterion: state.cursor as usize, choice: pick },
            )
            &&& !next.pane
            &&& next.well_formed()
            &&& state.answers(visit(pane, pick)) == asked(state.cursor as usize, pane, last)
        }),
{
    let events = visit(pane, pick);
    let (s1, a1) = state.step(events[0]);
    let (s2, a2) = s1.step(events[1]);
    let (s3, a3) = s2.step(events[2]);
    law_step_keeps_well_formed(state, events[0]);
    law_step_keeps_well_formed(s1, events[1]);
    law_step_keeps_well_formed(s2, events[2]);
    let e1 = events.drop_first();
    let e2 = e1.drop_first();
    let e3 = e2.drop_first();
    assert(state.run(events) == s1.run(e1));
    assert(s1.run(e1) == s2.run(e2));
    assert(s2.run(e2) == s3.run(e3));
    assert(state.answers(events) == seq![a1] + s1.answers(e1));
    assert(s1.answers(e1) == seq![a2] + s2.answers(e2));
    assert(s2.answers(e2) == seq![a3] + s3.answers(e3));
    let (s4, a4) = s3.step(events[3]);
    law_step_keeps_well_formed(s3, events[3]);
    let e4 = e3.drop_first();
    assert(s3.run(e3) == s4.run(e4));
    assert(s3.answers(e3) == seq![a4] + s4.answers(e4));
    assert(s4.answers(e4) =~= Seq::empty());
    assert(state.answers(events) =~= seq![a1, a2, a3, a4]);
}

/// A session in which each criterion is marked with a choice that it has
/// visits the criteria once each, in order, and ends as finished. The
/// engine asks for each criterion in turn to be shown and its selection
/// awaited, and for nothing else but its pane. At the end there is one
/// selection for each criterion, the one that was picked, and the total is
/// the sum of their points.
pub proof fn law_full_session_finishes(scheme: SchemeView, picks: Seq<usize>, panes: Seq<bool>)
    requires
        scheme.well_formed(),
        scheme.criteria.len() <= usize::MAX,
        picks.len() == scheme.criteria.len(),
        panes.len() == picks.len(),
        forall|i: int| 0 <= i < picks.len() ==> #[trigger] picks[i] < scheme.criteria[i].choices.len(),
    ensures
        ({
            let start = EngineView::start(scheme);
            let end = start.run(visits(picks, panes));
            &&& end.phase == Phase::Finished
            &&& end.cursor == scheme.criteria.len()
            &&& end.selections == picked(picks)
            &&& end.total == points_sum(scheme, picked(picks))
            &&& !end.pane
            &&& start.answers(visits(picks, panes)) == asked_over(scheme.criteria.len(), panes)
        }),
{
    lemma_visits(scheme, picks, panes, picks.len());
    assert(picks.take(picks.len() as int) =~= picks);
    assert(panes.take(picks.len() as int) =~= panes);
}

/// Where a session stands after its first `done` criteria are marked.
proof fn lemma_visits(scheme: SchemeView, picks: Seq<usize>, panes: Seq<bool>, done: nat)
    requires
        scheme.well_formed(),
        scheme.criteria.len() <= usize::MAX,
        picks.len() == scheme.criteria.len(),
        panes.len() == picks.len(),
        forall|i: int| 0 <= i < picks.len() ==> #[trigger] picks[i] < scheme.criteria[i].choices.len(),
        done <= picks.len(),
    ensures
        ({
            let start = EngineView::start(scheme);
            let events = visits(picks.take(done as int), panes.take(done as int));
            let now = start.run(events);
            &&& now.well_formed()
            &&& now.scheme == scheme
            &&& now.phase == if done == picks.len() {
                Phase::Finished
            } else {
                Phase::Presenting(done as usize)
            }
            &&& now.cursor == done
            &&& now.selections == picked(picks.take(done as int))
            &&& !now.pane
            &&& start.answers(events) == asked_over(scheme.criteria.len(), panes.take(done as int))
        }),
    decreases done,
{
    let start = EngineView::start(scheme);
    if done == 0 {
        assert(picked(picks.take(0)) =~= Seq::empty());
    } else {
        let before = (done - 1) as nat;
        lemma_visits(scheme, picks, panes, before);
        let first = visits(picks.take(before as int), panes.take(before as int));
        let then = visit(panes[before as int], picks[before as int]);
        let here = start.run(first);
        assert(picks.take(done as int).drop_last() =~= picks.take(before as int));
        assert(panes.take(done as int).drop_last() =~= panes.take(before as int));
        assert(visits(picks.take(done as int), panes.take(done as int)) == first + then);
        law_run_in_parts(start, first, then);
        lemma_visit(here, panes[before as int], picks[before as int]);
        assert(picked(picks.take(done as int)) =~= picked(picks.take(before as int)).push(
            Selection { criterion: before as usize, choice: picks[before as int] },
        ));
    }
}

} // verus!
