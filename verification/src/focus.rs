//! The single-instance concurrency core: the focus-poll worker, the
//! shared latch that stalls the periodic refresh timer while the window
//! is hidden, and the activation protocol that a second invocation's
//! connection drives.
//!
//! The host program runs the threads; this module owns every decision
//! they take. Each worker iteration is one `worker_tick`, a wake signal
//! is one `on_activation`, a hide request is one `request_park`, and the
//! refresh timer asks `timer_may_run` before doing any work.

use vstd::prelude::*;

verus! {

/// The window state the activation protocol resets.
pub struct UiState {
    pub query: String,
    pub selected_index: usize,
    pub scroll: usize,
    pub visible: bool,
}

/// Mathematical image of a `UiState`.
pub struct UiView {
    pub query: Seq<char>,
    pub selected_index: usize,
    pub scroll: usize,
    pub visible: bool,
}

impl View for UiState {
    type V = UiView;

    open spec fn view(&self) -> UiView {
        UiView {
            query: self.query@,
            selected_index: self.selected_index,
            scroll: self.scroll,
            visible: self.visible,
        }
    }
}

/// Whether the focus-poll worker runs or sits suspended.
#[derive(Clone, Copy, PartialEq, Eq, Structural, Debug)]
pub enum WorkerState {
    Active,
    Parked,
}

/// The coordinator's shared bookkeeping: the worker's state, the flag a
/// hide request raises, and the latch the refresh timer waits on.
#[derive(Clone, Copy, PartialEq, Eq, Structural, Debug)]
pub struct FocusCoordinator {
    pub worker: WorkerState,
    pub park_requested: bool,
    pub latch_open: bool,
}

/// What one worker iteration did: suspended workers do nothing; a
/// running worker checks focus and either keeps polling or parks.
#[derive(Clone, Copy, PartialEq, Eq, Structural, Debug)]
pub enum TickOutcome {
    Suspended,
    Checked,
    CheckedAndParked,
}

/// A focus check happened during the iteration.
pub open spec fn did_focus_check(o: TickOutcome) -> bool {
    !(o is Suspended)
}

impl FocusCoordinator {
    /// A parked worker never leaves the latch open.
    pub open spec fn wf(&self) -> bool {
        self.worker is Parked ==> !self.latch_open
    }

    /// The coordinator as the launcher starts: the worker is about to
    /// poll, a park is requested until the window first shows, and the
    /// latch is closed.
    pub fn new() -> (c: FocusCoordinator)
        ensures
            c.wf(),
            c.worker is Active,
            c.park_requested,
            !c.latch_open,
    {
        FocusCoordinator { worker: WorkerState::Active, park_requested: true, latch_open: false }
    }
}

/// One worker iteration as a function of the coordinator and what the
/// iteration observed: whether the window held focus, and whether a
/// focus request succeeded when it did not.
pub open spec fn spec_worker_tick(c: FocusCoordinator, focused: bool, focus_grant: bool) -> (
    FocusCoordinator,
    TickOutcome,
) {
    if c.worker is Parked {
        (c, TickOutcome::Suspended)
    } else if c.park_requested || (!focused && !focus_grant) {
        (
            FocusCoordinator {
                worker: WorkerState::Parked,
                park_requested: true,
                latch_open: false,
            },
            TickOutcome::CheckedAndParked,
        )
    } else {
        (c, TickOutcome::Checked)
    }
}

/// The query state after the reset a parking worker forces: empty query,
/// selection and scroll at the top; visibility is not its concern.
pub open spec fn query_reset(u: UiView) -> UiView {
    UiView { query: Seq::empty(), selected_index: 0, scroll: 0, visible: u.visible }
}

/// Clears the query and puts selection and scroll back to the top.
pub fn reset_query(ui: &mut UiState)
    ensures
        final(ui)@ == query_reset(old(ui)@),
{
    ui.query = String::new();
    ui.selected_index = 0;
    ui.scroll = 0;
}

/// One iteration of the focus-poll worker. A parked worker does
/// nothing. A running worker checks focus, requests it when lost, and,
/// when the request fails or a park was requested, forces one query
/// reset, closes the latch and suspends itself.
pub fn worker_tick(
    co: &mut FocusCoordinator,
    ui: &mut UiState,
    focused: bool,
    focus_grant: bool,
) -> (o: TickOutcome)
    ensures
        (*final(co), o) == spec_worker_tick(*old(co), focused, focus_grant),
        o is CheckedAndParked ==> final(ui)@ == query_reset(old(ui)@),
        !(o is CheckedAndParked) ==> *final(ui) == *old(ui),
{
    match co.worker {
        WorkerState::Parked => TickOutcome::Suspended,
        WorkerState::Active => {
            if co.park_requested || (!focused && !focus_grant) {
                reset_query(ui);
                co.worker = WorkerState::Parked;
                co.park_requested = true;
                co.latch_open = false;
                TickOutcome::CheckedAndParked
            } else {
                TickOutcome::Checked
            }
        },
    }
}

/// The coordinator after an activation signal: the worker resumed, no
/// park pending, the latch open.
pub open spec fn activated_coordinator() -> FocusCoordinator {
    FocusCoordinator { worker: WorkerState::Active, park_requested: false, latch_open: true }
}

/// The window state an activation signal leaves: empty query, selection
/// and scroll at the top, window visible.
pub open spec fn activation_target() -> UiView {
    UiView { query: Seq::empty(), selected_index: 0, scroll: 0, visible: true }
}

/// One accepted connection on the rendezvous endpoint: resumes the
/// suspended worker, reopens the latch, clears the query, resets the
/// selection and scroll to the top, and shows the window. The outcome
/// does not depend on the state the signal found.
pub fn on_activation(co: &mut FocusCoordinator, ui: &mut UiState)
    ensures
        *final(co) == activated_coordinator(),
        final(ui)@ == activation_target(),
        final(co).wf(),
{
    co.worker = WorkerState::Active;
    co.park_requested = false;
    co.latch_open = true;
    ui.query = String::new();
    ui.selected_index = 0;
    ui.scroll = 0;
    ui.visible = true;
}

/// A hide request (an entry was launched, or focus moved away for
/// good): the window hides and the worker is asked to park on its next
/// iteration.
pub fn request_park(co: &mut FocusCoordinator, ui: &mut UiState)
    ensures
        final(co).worker == old(co).worker,
        final(co).park_requested,
        final(co).latch_open == old(co).latch_open,
        final(ui)@.query == old(ui)@.query,
        final(ui)@.selected_index == old(ui)@.selected_index,
        final(ui)@.scroll == old(ui)@.scroll,
        !final(ui)@.visible,
{
    co.park_requested = true;
    ui.visible = false;
}

/// Whether the periodic refresh timer may do work this firing: only
/// while the latch stands open. A closed latch makes the timer wait, and
/// it must ask again once the latch reverts, so no refresh work happens
/// on a hidden window.
pub fn timer_may_run(co: &FocusCoordinator) -> (run: bool)
    ensures
        run == co.latch_open,
{
    co.latch_open
}

/// The coordinator after a run of worker iterations.
pub open spec fn run_worker(c: FocusCoordinator, inputs: Seq<(bool, bool)>) -> FocusCoordinator
    decreases inputs.len(),
{
    if inputs.len() == 0 {
        c
    } else {
        run_worker(spec_worker_tick(c, inputs[0].0, inputs[0].1).0, inputs.drop_first())
    }
}

/// The outcomes of a run of worker iterations.
pub open spec fn run_outcomes(c: FocusCoordinator, inputs: Seq<(bool, bool)>) -> Seq<TickOutcome>
    decreases inputs.len(),
{
    if inputs.len() == 0 {
        Seq::empty()
    } else {
        seq![spec_worker_tick(c, inputs[0].0, inputs[0].1).1] + run_outcomes(
            spec_worker_tick(c, inputs[0].0, inputs[0].1).0,
            inputs.drop_first(),
        )
    }
}

/// A run of iterations yields one outcome per iteration.
pub proof fn lemma_run_outcomes_len(c: FocusCoordinator, inputs: Seq<(bool, bool)>)
    ensures
        run_outcomes(c, inputs).len() == inputs.len(),
    decreases inputs.len(),
{
    if inputs.len() > 0 {
        lemma_run_outcomes_len(
            spec_worker_tick(c, inputs[0].0, inputs[0].1).0,
            inputs.drop_first(),
        );
    }
}

/// Once parked, the worker performs no focus check, whatever it would
/// observe and however long the run, until something else resumes it.
pub proof fn lemma_parked_worker_silent(c: FocusCoordinator, inputs: Seq<(bool, bool)>)
    requires
        c.worker is Parked,
    ensures
        run_worker(c, inputs) == c,
        forall|k: int|
            0 <= k < inputs.len() ==> !did_focus_check(#[trigger] run_outcomes(c, inputs)[k]),
    decreases inputs.len(),
{
    if inputs.len() > 0 {
        assert(spec_worker_tick(c, inputs[0].0, inputs[0].1).0 == c);
        assert(spec_worker_tick(c, inputs[0].0, inputs[0].1).1 == TickOutcome::Suspended);
        let df = inputs.drop_first();
        lemma_parked_worker_silent(c, df);
        lemma_run_outcomes_len(c, df);
        let tail = run_outcomes(c, df);
        assert(run_outcomes(c, inputs) == seq![TickOutcome::Suspended] + tail);
        assert forall|k: int| 0 <= k < inputs.len() implies !did_focus_check(
            #[trigger] run_outcomes(c, inputs)[k],
        ) by {
            if k > 0 {
                assert((seq![TickOutcome::Suspended] + tail)[k] == tail[k - 1]);
                assert(!did_focus_check(tail[k - 1]));
            } else {
                assert(run_outcomes(c, inputs)[0] == TickOutcome::Suspended);
            }
        }
    }
}

/// A resumed worker checks focus on its very next iteration: after an
/// activation, the first tick performs a focus check.
pub proof fn lemma_resumed_worker_checks(focused: bool, focus_grant: bool)
    ensures
        did_focus_check(spec_worker_tick(activated_coordinator(), focused, focus_grant).1),
{
}

/// The latch invariant survives every worker iteration: a parked worker
/// leaves the latch closed, so the refresh timer does no work while the
/// window sits hidden.
pub proof fn lemma_latch_closed_while_parked(c: FocusCoordinator, inputs: Seq<(bool, bool)>)
    requires
        c.wf(),
    ensures
        run_worker(c, inputs).wf(),
    decreases inputs.len(),
{
    if inputs.len() > 0 {
        lemma_latch_closed_while_parked(
            spec_worker_tick(c, inputs[0].0, inputs[0].1).0,
            inputs.drop_first(),
        );
    }
}

/// The window state after a burst of consecutive activation signals.
pub open spec fn activate_n(u: UiView, n: nat) -> UiView
    decreases n,
{
    if n == 0 {
        u
    } else {
        activate_n(activation_target(), (n - 1) as nat)
    }
}

/// A burst of rapid activations collapses: any positive number of
/// consecutive activation signals leaves the window exactly as a single
/// one does — query empty, selection and scroll at the top, window
/// visible.
pub proof fn lemma_activation_burst_collapses(u: UiView, n: nat)
    requires
        n >= 1,
    ensures
        activate_n(u, n) == activate_n(u, 1),
        activate_n(u, n) == activation_target(),
    decreases n,
{
    assert(activate_n(activation_target(), 0) == activation_target());
    if n > 1 {
        lemma_activation_burst_collapses(activation_target(), (n - 1) as nat);
    }
}

} // verus!
