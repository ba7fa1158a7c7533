use cosmic_wanderer::focus::FocusCoordinator;
use cosmic_wanderer::focus::TickOutcome;
use cosmic_wanderer::focus::UiState;
use cosmic_wanderer::focus::WorkerState;
use cosmic_wanderer::focus::on_activation;
use cosmic_wanderer::focus::request_park;
use cosmic_wanderer::focus::timer_may_run;
use cosmic_wanderer::focus::worker_tick;

fn some_ui() -> UiState {
    UiState { query: "fire".to_string(), selected_index: 3, scroll: 120, visible: false }
}

fn parked_coordinator() -> (FocusCoordinator, UiState) {
    let mut co = FocusCoordinator::new();
    let mut ui = some_ui();
    // the initial park request makes the first iteration park the worker
    let o = worker_tick(&mut co, &mut ui, true, true);
    assert_eq!(o, TickOutcome::CheckedAndParked);
    assert_eq!(co.worker, WorkerState::Parked);
    (co, ui)
}

#[test]
fn activation_resets_query_selection_scroll_and_shows() {
    let (mut co, mut ui) = parked_coordinator();
    on_activation(&mut co, &mut ui);
    assert_eq!(ui.query, "");
    assert_eq!(ui.selected_index, 0);
    assert_eq!(ui.scroll, 0);
    assert!(ui.visible);
    assert_eq!(co.worker, WorkerState::Active);
    assert!(co.latch_open);
    assert!(!co.park_requested);
}

#[test]
fn a_burst_of_activations_collapses_to_one() {
    let (mut co_once, mut ui_once) = parked_coordinator();
    on_activation(&mut co_once, &mut ui_once);

    let (mut co_many, mut ui_many) = parked_coordinator();
    for _ in 0..5 {
        on_activation(&mut co_many, &mut ui_many);
    }

    assert_eq!(co_once, co_many);
    assert_eq!(ui_once.query, ui_many.query);
    assert_eq!(ui_once.selected_index, ui_many.selected_index);
    assert_eq!(ui_once.scroll, ui_many.scroll);
    assert_eq!(ui_once.visible, ui_many.visible);
}

#[test]
fn a_parked_worker_does_nothing_until_resumed() {
    let (mut co, mut ui) = parked_coordinator();
    let parked = co;
    let query_before = ui.query.clone();
    for round in 0..10 {
        let focused = round % 2 == 0;
        let o = worker_tick(&mut co, &mut ui, focused, !focused);
        assert_eq!(o, TickOutcome::Suspended);
        assert_eq!(co, parked);
    }
    assert_eq!(ui.query, query_before);
}

#[test]
fn a_resumed_worker_checks_focus_on_the_next_tick() {
    let (mut co, mut ui) = parked_coordinator();
    on_activation(&mut co, &mut ui);
    let o = worker_tick(&mut co, &mut ui, true, true);
    assert_ne!(o, TickOutcome::Suspended);
    assert_eq!(co.worker, WorkerState::Active);
}

#[test]
fn a_failed_focus_request_parks_the_worker() {
    let (mut co, mut ui) = parked_coordinator();
    on_activation(&mut co, &mut ui);
    ui.query = "typed".to_string();
    // focus lost and the focus request refused: the worker resets the
    // query and parks
    let o = worker_tick(&mut co, &mut ui, false, false);
    assert_eq!(o, TickOutcome::CheckedAndParked);
    assert_eq!(co.worker, WorkerState::Parked);
    assert_eq!(ui.query, "");
    assert!(!co.latch_open);
}

#[test]
fn the_timer_runs_only_while_the_latch_is_open() {
    let (mut co, mut ui) = parked_coordinator();
    assert!(!timer_may_run(&co));
    on_activation(&mut co, &mut ui);
    assert!(timer_may_run(&co));
    request_park(&mut co, &mut ui);
    assert!(!ui.visible);
    let o = worker_tick(&mut co, &mut ui, true, true);
    assert_eq!(o, TickOutcome::CheckedAndParked);
    assert!(!timer_may_run(&co));
}
