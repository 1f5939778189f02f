//! Recording commands as they run: which row an event adds or completes.
//!
//! The store is worked by the caller: [`on_event`] says what is to be written,
//! and [`CaptureState::submitted`] takes in the number of the row it wrote.

use vstd::prelude::*;

use crate::markers::{EventView, LifecycleEvent};
use crate::osc::text_view;

verus! {

/// The row of the command that is running, if any.
#[derive(Debug, Clone, Copy, PartialEq, Eq, Structural)]
pub struct CaptureState {
    pub current_run_id: Option<i64>,
}

impl Default for CaptureState {
    fn default() -> (r: CaptureState)
        ensures
            r.current_run_id is None,
    {
        CaptureState { current_run_id: None }
    }
}

/// What an event has the store do.
#[derive(Debug, PartialEq, Eq)]
pub enum CaptureAction {
    /// Nothing.
    Nothing,
    /// Add a row for a command that starts.
    RecordSubmit { text: String, cwd: Option<String>, pane_id: i64, started_at_ms: i64 },
    /// Complete the row of the command that ended.
    RecordFinish { id: i64, finished_at_ms: i64, exit_code: i32 },
}

/// What an event has the store do, as mathematics.
pub enum ActionView {
    Nothing,
    RecordSubmit {
        text: Seq<char>,
        cwd: Option<Seq<char>>,
        pane_id: i64,
        started_at_ms: i64,
    },
    RecordFinish { id: i64, finished_at_ms: i64, exit_code: i32 },
}

impl View for CaptureAction {
    type V = ActionView;

    open spec fn view(&self) -> ActionView {
        match *self {
            CaptureAction::Nothing => ActionView::Nothing,
            CaptureAction::RecordSubmit { text, cwd, pane_id, started_at_ms } => {
                ActionView::RecordSubmit {
                    text: text@,
                    cwd: text_view(cwd),
                    pane_id,
                    started_at_ms,
                }
            },
            CaptureAction::RecordFinish { id, finished_at_ms, exit_code } => {
                ActionView::RecordFinish { id, finished_at_ms, exit_code }
            },
        }
    }
}

/// What an event has the store do. A command that starts adds a row; one that
/// ends completes the row of the command that is running, if there is one.
pub open spec fn captured(
    state: CaptureState,
    enabled: bool,
    event: EventView,
    pane_id: u64,
    cwd: Option<Seq<char>>,
    now_ms: i64,
) -> ActionView {
    match event {
        EventView::Preexec { command } if enabled => ActionView::RecordSubmit {
            text: command,
            cwd,
            pane_id: #[verifier::truncate] (pane_id as i64),
            started_at_ms: now_ms,
        },
        EventView::CommandFinished { exit } if enabled && state.current_run_id is Some => {
            ActionView::RecordFinish {
                id: state.current_run_id.unwrap(),
                finished_at_ms: now_ms,
                exit_code: exit,
            }
        },
        _ => ActionView::Nothing,
    }
}

/// The state after an event: a command that ends is no longer running. (A
/// command that starts is running once its row is written.)
pub open spec fn after_event(state: CaptureState, enabled: bool, event: EventView) -> CaptureState {
    match event {
        EventView::CommandFinished { .. } if enabled => CaptureState { current_run_id: None },
        _ => state,
    }
}

/// Decides what an event has the store do. Without a store (`enabled` is
/// false) nothing happens.
pub fn on_event(
    enabled: bool,
    state: &mut CaptureState,
    event: &LifecycleEvent,
    pane_id: u64,
    cwd: Option<&str>,
    now_ms: i64,
) -> (r: CaptureAction)
    ensures
        r@ == captured(
            *old(state),
            enabled,
            event@,
            pane_id,
            match cwd {
                Some(s) => Some(s@),
                None => None,
            },
            now_ms,
        ),
        *final(state) == after_event(*old(state), enabled, event@),
{
    if !enabled {
        return CaptureAction::Nothing;
    }
    match event {
        LifecycleEvent::Preexec { command } => CaptureAction::RecordSubmit {
            text: command.clone(),
            cwd: match cwd {
                Some(s) => Some(s.to_owned()),
                None => None,
            },
            pane_id: #[verifier::truncate] (pane_id as i64),
            started_at_ms: now_ms,
        },
        LifecycleEvent::CommandFinished { exit } => match state.current_run_id.take() {
            Some(id) => CaptureAction::RecordFinish {
                id,
                finished_at_ms: now_ms,
                exit_code: *exit,
            },
            None => CaptureAction::Nothing,
        },
        _ => CaptureAction::Nothing,
    }
}

/// The state after the store made a new row `id` for the command that starts, or
/// failed to: that command is the one that runs now, with a row or without.
pub open spec fn after_submitted(state: CaptureState, id: Option<i64>) -> CaptureState {
    CaptureState { current_run_id: id }
}

impl CaptureState {
    /// Takes in what the store made of a new row: its number, or `None` where
    /// it could not be written.
    pub fn submitted(&mut self, id: Option<i64>)
        ensures
            *final(self) == after_submitted(*old(self), id),
    {
        self.current_run_id = id;
    }
}

/// The exit code of a command that could not be recorded goes to no row, least of all
/// to that of an earlier command.
pub proof fn law_unrecorded_command_stamps_nothing(
    state: CaptureState,
    exit: i32,
    pane_id: u64,
    cwd: Option<Seq<char>>,
    now_ms: i64,
)
    ensures
        captured(
            after_submitted(state, None),
            true,
            EventView::CommandFinished { exit },
            pane_id,
            cwd,
            now_ms,
        ) == ActionView::Nothing,
{
}

/// A command that starts before the last one was reported done takes its
/// place: the next exit code goes to the later command's row.
pub proof fn law_later_command_takes_the_exit(
    state: CaptureState,
    id: i64,
    exit: i32,
    pane_id: u64,
    cwd: Option<Seq<char>>,
    now_ms: i64,
)
    ensures
        captured(
            after_submitted(state, Some(id)),
            true,
            EventView::CommandFinished { exit },
            pane_id,
            cwd,
            now_ms,
        ) == (ActionView::RecordFinish { id, finished_at_ms: now_ms, exit_code: exit }),
{
}

/// An exit code is recorded once: a second end without a start between them
/// writes nothing.
pub proof fn law_exit_is_recorded_once(
    state: CaptureState,
    first: i32,
    second: i32,
    pane_id: u64,
    cwd: Option<Seq<char>>,
    now_ms: i64,
)
    ensures
        captured(
            after_event(state, true, EventView::CommandFinished { exit: first }),
            true,
            EventView::CommandFinished { exit: second },
            pane_id,
            cwd,
            now_ms,
        ) == ActionView::Nothing,
{
}

/// What is recorded, and when: a command that starts, with its text, directory, pane
/// and time; the end of the command that runs, with its row, time and exit code; and
/// nothing else. Without a store nothing is recorded and nothing forgotten.
pub proof fn law_what_is_recorded(
    state: CaptureState,
    enabled: bool,
    event: EventView,
    pane_id: u64,
    cwd: Option<Seq<char>>,
    now_ms: i64,
)
    ensures
        ({
            let a = captured(state, enabled, event, pane_id, cwd, now_ms);
            let after = after_event(state, enabled, event);
            &&& !enabled ==> a is Nothing && after == state
            &&& enabled ==> (match event {
                EventView::Preexec { command } => {
                    &&& a is RecordSubmit
                    &&& a->text == command
                    &&& a->cwd == cwd
                    &&& pane_id <= i64::MAX ==> a->pane_id == pane_id
                    &&& a->started_at_ms == now_ms
                    &&& after == state
                },
                EventView::CommandFinished { exit } => {
                    &&& after.current_run_id is None
                    &&& match state.current_run_id {
                        Some(id) => a is RecordFinish && a->id == id && a->finished_at_ms == now_ms
                            && a->exit_code == exit,
                        None => a is Nothing,
                    }
                },
                _ => a is Nothing && after == state,
            })
        }),
{
}

/// The row that the store made is that of the command that runs.
pub proof fn law_new_row_is_the_running_one(state: CaptureState, id: Option<i64>)
    ensures
        after_submitted(state, id).current_run_id == id,
{
}

/// What is to be recorded is what the fields say.
pub proof fn law_records_are_what_they_say(a: CaptureAction)
    ensures
        match a {
            CaptureAction::Nothing => a@ is Nothing,
            CaptureAction::RecordSubmit { text, cwd, pane_id, started_at_ms } => a@ is RecordSubmit
                && a@->text == text@ && (match cwd {
                Some(c) => a@->cwd == Some(c@),
                None => a@->cwd is None,
            }) && a@->pane_id == pane_id && a@->started_at_ms == started_at_ms,
            CaptureAction::RecordFinish { id, finished_at_ms, exit_code } => a@ is RecordFinish
                && a@->id == id && a@->finished_at_ms == finished_at_ms && a@->exit_code
                == exit_code,
        },
{
}

} // verus!
