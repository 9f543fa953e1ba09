use imark::engine::{
    Action, Engine, Event, InvalidSelectionError, MarkingState, Outcome, Phase, Selection,
};
use imark::parse::parse;
use imark::scheme::{Choice, Criterion, Scheme};

fn choice(label: &str, points: i64) -> Choice {
    Choice { label: label.to_string(), points }
}

fn small_scheme() -> Scheme {
    Scheme::new(vec![
        Criterion::new("Compiles".to_string(), vec![choice("yes", 2), choice("no", 0)]).unwrap(),
        Criterion::new("Style".to_string(), vec![choice("good", 1), choice("bad", 0)]).unwrap(),
    ])
    .unwrap()
}

fn pick(criterion: usize, choice: usize) -> Selection {
    Selection { criterion, choice }
}

fn marks(cursor: usize, selections: Vec<Selection>, total: i128) -> MarkingState {
    MarkingState { cursor, selections, total }
}

fn pairs(trail: &[(&str, &str)]) -> Vec<(String, String)> {
    trail.iter().map(|(prompt, label)| (prompt.to_string(), label.to_string())).collect()
}

/// Hands the events to the engine one by one; gives the engine and the
/// request after each event.
fn drive(engine: Engine, events: &[Event]) -> (Engine, Vec<Action>) {
    let mut engine = engine;
    let mut actions = Vec::new();
    for event in events {
        let (next, action) = engine.step(*event);
        engine = next;
        actions.push(action);
    }
    (engine, actions)
}

/// The engine at the prompt of criterion `cursor` of the small scheme, with
/// the first choice taken for each criterion before it and no pane.
fn awaiting(scheme: Scheme, cursor: usize) -> Engine {
    let (mut engine, _) = Engine::start(scheme);
    for _ in 0..cursor {
        engine = drive(
            engine,
            &[Event::PaneFailed, Event::Rendered, Event::Selected(0), Event::PaneClosed],
        )
        .0;
    }
    drive(engine, &[Event::PaneFailed, Event::Rendered]).0
}

#[test]
fn a_session_starts_presenting_the_first_criterion() {
    let (engine, action) = Engine::start(small_scheme());
    assert_eq!(action, Action::OpenPane(0));
    assert_eq!(engine.phase(), Phase::Presenting(0));
    assert_eq!(engine.marks(), &marks(0, vec![], 0));
    assert_eq!(engine.held_pane(), None);
    assert_eq!(engine.outcome(), None);
    assert_eq!(engine.trail(), pairs(&[]));
    assert_eq!(engine.scheme(), &small_scheme());
}

#[test]
fn selecting_yes_then_bad_yields_total_two() {
    let (engine, _) = Engine::start(small_scheme());
    let (engine, actions) = drive(
        engine,
        &[
            Event::PaneFailed,
            Event::Rendered,
            Event::Selected(0),
            Event::PaneClosed,
            Event::PaneFailed,
            Event::Rendered,
            Event::Selected(1),
            Event::PaneClosed,
        ],
    );
    assert_eq!(
        actions,
        vec![
            Action::Render(0),
            Action::AwaitSelection(0),
            Action::Advance { close: None },
            Action::OpenPane(1),
            Action::Render(1),
            Action::AwaitSelection(1),
            Action::Advance { close: None },
            Action::Stop { close: None },
        ]
    );
    assert_eq!(engine.phase(), Phase::Finished);
    assert_eq!(
        engine.outcome(),
        Some(Outcome::Finished { total: 2, selections: vec![pick(0, 0), pick(1, 1)] })
    );
    assert_eq!(engine.trail(), pairs(&[("Compiles", "yes"), ("Style", "bad")]));
    assert_eq!(engine.marks(), &marks(2, vec![pick(0, 0), pick(1, 1)], 2));
}

#[test]
fn an_invalid_index_reprompts_with_total_still_zero() {
    let engine = awaiting(small_scheme(), 0);
    assert_eq!(engine.phase(), Phase::AwaitingSelection(0));
    let (engine, action) = engine.step(Event::Selected(5));
    assert_eq!(
        action,
        Action::Reprompt(InvalidSelectionError { criterion: 0, selected: Some(5), available: 2 })
    );
    assert_eq!(engine.phase(), Phase::AwaitingSelection(0));
    assert_eq!(engine.marks(), &marks(0, vec![], 0));
    assert_eq!(engine.outcome(), None);
    assert_eq!(engine.trail(), pairs(&[]));
    let (engine, action) = engine.step(Event::Selected(0));
    assert_eq!(action, Action::Advance { close: None });
    assert_eq!(engine.phase(), Phase::Advancing);
    assert_eq!(engine.marks(), &marks(0, vec![pick(0, 0)], 2));
    let (engine, action) = engine.step(Event::PaneClosed);
    assert_eq!(action, Action::OpenPane(1));
    assert_eq!(engine.phase(), Phase::Presenting(1));
    assert_eq!(engine.marks(), &marks(1, vec![pick(0, 0)], 2));
}

#[test]
fn the_first_position_out_of_range_is_refused() {
    let engine = awaiting(small_scheme(), 1);
    let before = awaiting(small_scheme(), 1);
    let (engine, action) = engine.step(Event::Selected(2));
    assert_eq!(
        action,
        Action::Reprompt(InvalidSelectionError { criterion: 1, selected: Some(2), available: 2 })
    );
    assert_eq!(engine, before);
    let (engine, action) = engine.step(Event::Selected(usize::MAX));
    assert_eq!(
        action,
        Action::Reprompt(InvalidSelectionError {
            criterion: 1,
            selected: Some(usize::MAX),
            available: 2
        })
    );
    assert_eq!(engine, before);
}

#[test]
fn input_that_is_no_selection_is_refused() {
    let engine = awaiting(small_scheme(), 0);
    let before = awaiting(small_scheme(), 0);
    let (engine, action) = engine.step(Event::Unreadable);
    assert_eq!(
        action,
        Action::Reprompt(InvalidSelectionError { criterion: 0, selected: None, available: 2 })
    );
    assert_eq!(engine, before);
}

#[test]
fn a_selection_while_presenting_changes_nothing() {
    let (engine, _) = Engine::start(small_scheme());
    let (engine, action) = engine.step(Event::Selected(0));
    assert_eq!(action, Action::Render(0));
    assert_eq!(engine, Engine::start(small_scheme()).0);
    let (engine, action) = engine.step(Event::Unreadable);
    assert_eq!(action, Action::Render(0));
    assert_eq!(engine, Engine::start(small_scheme()).0);
}

#[test]
fn a_full_session_visits_each_criterion_once_in_order() {
    let mut text = String::new();
    for i in 0..7 {
        text.push_str(&format!("Criterion {}\n- none: 0\n- some: {}\n- all: {}\n", i, i + 1, 10 * (i + 1)));
    }
    let picks = [2usize, 0, 1, 1, 2, 0, 2];
    let (mut engine, mut action) = Engine::start(parse(&text).unwrap());
    let mut rendered = Vec::new();
    let mut expected_total: i128 = 0;
    for (i, pick) in picks.iter().enumerate() {
        assert_eq!(action, Action::OpenPane(i));
        assert_eq!(engine.phase(), Phase::Presenting(i));
        let with_pane = i % 2 == 0;
        let (next, request) =
            engine.step(if with_pane { Event::PaneOpened } else { Event::PaneFailed });
        assert_eq!(request, Action::Render(i));
        rendered.push(i);
        let (next, request) = next.step(Event::Rendered);
        assert_eq!(request, Action::AwaitSelection(i));
        assert_eq!(next.phase(), Phase::AwaitingSelection(i));
        let (next, request) = next.step(Event::Selected(*pick));
        expected_total += [0, i as i128 + 1, 10 * (i as i128 + 1)][*pick];
        assert_eq!(next.marks().total, expected_total);
        assert_eq!(next.marks().selections.len(), i + 1);
        assert_eq!(request, Action::Advance { close: if with_pane { Some(i) } else { None } });
        assert_eq!(next.phase(), Phase::Advancing);
        assert_eq!(next.marks().cursor, i);
        let (next, request) = next.step(Event::PaneClosed);
        engine = next;
        action = request;
        assert_eq!(engine.held_pane(), None);
        assert_eq!(engine.marks().cursor, i + 1);
    }
    assert_eq!(rendered, vec![0, 1, 2, 3, 4, 5, 6]);
    assert_eq!(action, Action::Stop { close: None });
    assert_eq!(engine.phase(), Phase::Finished);
    let selections: Vec<Selection> =
        picks.iter().enumerate().map(|(i, pick)| Selection { criterion: i, choice: *pick }).collect();
    assert_eq!(expected_total, 10 + 0 + 3 + 4 + 50 + 0 + 70);
    assert_eq!(engine.outcome(), Some(Outcome::Finished { total: 137, selections }));
}

#[test]
fn the_total_is_the_sum_of_the_recorded_points_and_of_no_others() {
    let scheme = parse("A\n- x: 100\n- y: -7\nB\n- x: 1000\n- y: -70\nC\n- x: 5\n- y: 11\n").unwrap();
    let (engine, _) = Engine::start(scheme);
    let (engine, _) = drive(
        engine,
        &[
            Event::PaneFailed,
            Event::Rendered,
            Event::Selected(9),
            Event::Selected(1),
            Event::PaneClosed,
            Event::PaneFailed,
            Event::Rendered,
            Event::Unreadable,
            Event::Selected(0),
            Event::PaneClosed,
        ],
    );
    assert_eq!(engine.marks(), &marks(2, vec![pick(0, 1), pick(1, 0)], 993));
    assert_eq!(engine.outcome(), None);
    let (engine, _) = drive(
        engine,
        &[Event::PaneFailed, Event::Rendered, Event::Selected(1), Event::PaneClosed],
    );
    assert_eq!(
        engine.outcome(),
        Some(Outcome::Finished { total: 1004, selections: vec![pick(0, 1), pick(1, 0), pick(2, 1)] })
    );
    assert_eq!(engine.trail(), pairs(&[("A", "y"), ("B", "x"), ("C", "y")]));
}

#[test]
fn totals_beyond_64_bits_are_kept() {
    let text = "A\n- most: 9223372036854775807\nB\n- most: 9223372036854775807\nC\n- most: 9223372036854775807\n";
    let (mut engine, _) = Engine::start(parse(text).unwrap());
    for _ in 0..3 {
        engine = drive(
            engine,
            &[Event::PaneFailed, Event::Rendered, Event::Selected(0), Event::PaneClosed],
        )
        .0;
    }
    assert_eq!(
        engine.outcome(),
        Some(Outcome::Finished {
            total: 27670116110564327421,
            selections: vec![pick(0, 0), pick(1, 0), pick(2, 0)]
        })
    );
    let text = "A\n- least: -9223372036854775808\nB\n- least: -9223372036854775808\n";
    let (mut engine, _) = Engine::start(parse(text).unwrap());
    for _ in 0..2 {
        engine = drive(
            engine,
            &[Event::PaneFailed, Event::Rendered, Event::Selected(0), Event::PaneClosed],
        )
        .0;
    }
    assert_eq!(engine.marks().total, -18446744073709551616);
}

#[test]
fn a_scheme_of_one_criterion_runs_the_full_sequence_once() {
    let scheme = parse("Only\n- a: 3\n- b: 4\n").unwrap();
    let (engine, action) = Engine::start(scheme);
    assert_eq!(action, Action::OpenPane(0));
    let (engine, actions) =
        drive(engine, &[Event::PaneOpened, Event::Rendered, Event::Selected(1), Event::PaneClosed]);
    assert_eq!(
        actions,
        vec![
            Action::Render(0),
            Action::AwaitSelection(0),
            Action::Advance { close: Some(0) },
            Action::Stop { close: None }
        ]
    );
    assert_eq!(engine.phase(), Phase::Finished);
    assert_eq!(engine.outcome(), Some(Outcome::Finished { total: 4, selections: vec![pick(0, 1)] }));
}

#[test]
fn a_single_choice_is_not_taken_without_the_marker() {
    let scheme = parse("Submitted\n- yes: 1\n").unwrap();
    let (engine, _) = Engine::start(scheme);
    let (engine, actions) = drive(
        engine,
        &[Event::PaneFailed, Event::Rendered, Event::Rendered, Event::PaneClosed, Event::PaneOpened],
    );
    assert_eq!(
        actions,
        vec![
            Action::Render(0),
            Action::AwaitSelection(0),
            Action::AwaitSelection(0),
            Action::AwaitSelection(0),
            Action::AwaitSelection(0)
        ]
    );
    assert_eq!(engine.phase(), Phase::AwaitingSelection(0));
    assert_eq!(engine.marks(), &marks(0, vec![], 0));
    let (engine, actions) = drive(engine, &[Event::Selected(0), Event::PaneClosed]);
    assert_eq!(actions, vec![Action::Advance { close: None }, Action::Stop { close: None }]);
    assert_eq!(engine.outcome(), Some(Outcome::Finished { total: 1, selections: vec![pick(0, 0)] }));
}

#[test]
fn aborting_at_any_cursor_yields_aborted_by_user() {
    for cursor in 0..2 {
        let (engine, action) = awaiting(small_scheme(), cursor).step(Event::Abort);
        assert_eq!(action, Action::Stop { close: None });
        assert_eq!(engine.phase(), Phase::Aborted);
        assert_eq!(engine.outcome(), Some(Outcome::AbortedByUser));
        assert_eq!(engine.held_pane(), None);
        assert_eq!(engine.marks().cursor, cursor);
    }
}

#[test]
fn aborting_while_presenting_yields_aborted_by_user() {
    let (engine, _) = Engine::start(small_scheme());
    let (engine, action) = engine.step(Event::Abort);
    assert_eq!(action, Action::Stop { close: None });
    assert_eq!(engine.outcome(), Some(Outcome::AbortedByUser));
    let (engine, _) = Engine::start(small_scheme());
    let (engine, _) = drive(
        engine,
        &[
            Event::PaneFailed,
            Event::Rendered,
            Event::Selected(0),
            Event::PaneClosed,
            Event::PaneOpened,
        ],
    );
    assert_eq!(engine.phase(), Phase::Presenting(1));
    let (engine, action) = engine.step(Event::Abort);
    assert_eq!(action, Action::Stop { close: Some(1) });
    assert_eq!(engine.outcome(), Some(Outcome::AbortedByUser));
    assert_eq!(engine.held_pane(), None);
}

#[test]
fn aborting_closes_the_pane_that_is_open() {
    let (engine, _) = Engine::start(small_scheme());
    let (engine, _) = drive(engine, &[Event::PaneOpened, Event::Rendered]);
    assert_eq!(engine.held_pane(), Some(0));
    let (engine, action) = engine.step(Event::Abort);
    assert_eq!(action, Action::Stop { close: Some(0) });
    assert_eq!(engine.held_pane(), None);
    assert_eq!(engine.outcome(), Some(Outcome::AbortedByUser));
}

#[test]
fn an_aborted_session_shows_no_partial_score_as_final() {
    let (engine, _) = awaiting(small_scheme(), 1).step(Event::Abort);
    assert_eq!(engine.marks(), &marks(1, vec![pick(0, 0)], 2));
    assert_eq!(engine.outcome(), Some(Outcome::AbortedByUser));
}

#[test]
fn a_failure_closes_the_pane_and_ends_without_a_score() {
    let (engine, _) = Engine::start(small_scheme());
    let (engine, _) = engine.step(Event::PaneOpened);
    let (engine, action) = engine.step(Event::Failure);
    assert_eq!(action, Action::Stop { close: Some(0) });
    assert_eq!(engine.phase(), Phase::Failed);
    assert_eq!(engine.outcome(), Some(Outcome::Failed));
    assert_eq!(engine.held_pane(), None);
    let (engine, action) = awaiting(small_scheme(), 1).step(Event::Failure);
    assert_eq!(action, Action::Stop { close: None });
    assert_eq!(engine.outcome(), Some(Outcome::Failed));
}

#[test]
fn a_pane_that_fails_to_open_is_done_without() {
    let (engine, _) = Engine::start(small_scheme());
    let (engine, action) = engine.step(Event::PaneFailed);
    assert_eq!(action, Action::Render(0));
    assert_eq!(engine.held_pane(), None);
    let (engine, actions) = drive(engine, &[Event::Rendered, Event::Selected(1), Event::PaneClosed]);
    assert_eq!(
        actions,
        vec![Action::AwaitSelection(0), Action::Advance { close: None }, Action::OpenPane(1)]
    );
    assert_eq!(engine.phase(), Phase::Presenting(1));
}

#[test]
fn a_pane_that_fails_to_close_does_not_stop_the_session() {
    let (engine, _) = Engine::start(small_scheme());
    let (engine, actions) =
        drive(engine, &[Event::PaneOpened, Event::Rendered, Event::Selected(1), Event::PaneFailed]);
    assert_eq!(
        actions,
        vec![
            Action::Render(0),
            Action::AwaitSelection(0),
            Action::Advance { close: Some(0) },
            Action::OpenPane(1)
        ]
    );
    assert_eq!(engine.phase(), Phase::Presenting(1));
    assert_eq!(engine.held_pane(), None);
    assert_eq!(engine.marks(), &marks(1, vec![pick(0, 1)], 0));
}

#[test]
fn while_a_criterion_is_left_nothing_else_counts() {
    let (engine, _) = Engine::start(small_scheme());
    let (engine, _) = drive(engine, &[Event::PaneOpened, Event::Rendered, Event::Selected(0)]);
    assert_eq!(engine.phase(), Phase::Advancing);
    assert_eq!(engine.held_pane(), Some(0));
    let (engine, actions) = drive(
        engine,
        &[Event::Abort, Event::Selected(1), Event::Rendered, Event::Failure, Event::PaneOpened],
    );
    assert_eq!(actions, vec![Action::Advance { close: Some(0) }; 5]);
    assert_eq!(engine.phase(), Phase::Advancing);
    assert_eq!(engine.marks(), &marks(0, vec![pick(0, 0)], 2));
    let (engine, action) = engine.step(Event::PaneClosed);
    assert_eq!(action, Action::OpenPane(1));
    assert_eq!(engine.phase(), Phase::Presenting(1));
}

#[test]
fn a_session_that_is_over_stays_as_it_is() {
    let every = [
        Event::PaneOpened,
        Event::PaneFailed,
        Event::PaneClosed,
        Event::Rendered,
        Event::Selected(0),
        Event::Unreadable,
        Event::Abort,
        Event::Failure,
    ];
    let finish = [
        Event::PaneFailed,
        Event::Rendered,
        Event::Selected(0),
        Event::PaneClosed,
        Event::PaneFailed,
        Event::Rendered,
        Event::Selected(1),
        Event::PaneClosed,
    ];
    let ends: [&[Event]; 3] = [&finish, &[Event::Abort], &[Event::Failure]];
    for end in ends {
        let over = || drive(Engine::start(small_scheme()).0, end).0;
        assert!(over().outcome().is_some());
        let (engine, actions) = drive(over(), &every);
        assert_eq!(actions, vec![Action::Stop { close: None }; 8]);
        assert_eq!(engine, over());
    }
}
