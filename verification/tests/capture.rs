use termica::history::capture::{on_event, CaptureAction, CaptureState};
use termica::markers::LifecycleEvent;

#[derive(Debug, Clone)]
struct Row {
    text: String,
    cwd: Option<String>,
    pane_id: Option<i64>,
    app_run_id: Option<String>,
    started_at_ms: i64,
    finished_at_ms: Option<i64>,
    exit_code: Option<i32>,
    source: String,
}

#[derive(Default)]
struct Store {
    rows: Vec<Row>,
}

fn feed(
    store: Option<&mut Store>,
    state: &mut CaptureState,
    event: &LifecycleEvent,
    pane_id: u64,
    cwd: Option<&str>,
    now_ms: i64,
) {
    let action = on_event(store.is_some(), state, event, pane_id, cwd, now_ms);
    let store = match store {
        Some(s) => s,
        None => {
            assert_eq!(action, CaptureAction::Nothing);
            return;
        }
    };
    match action {
        CaptureAction::Nothing => {}
        CaptureAction::RecordSubmit { text, cwd, pane_id, started_at_ms } => {
            store.rows.push(Row {
                text,
                cwd,
                pane_id: Some(pane_id),
                app_run_id: Some("test-app-run".to_string()),
                started_at_ms,
                finished_at_ms: None,
                exit_code: None,
                source: "termica".to_string(),
            });
            state.submitted(Some(store.rows.len() as i64));
        }
        CaptureAction::RecordFinish { id, finished_at_ms, exit_code } => {
            let row = &mut store.rows[id as usize - 1];
            row.finished_at_ms = Some(finished_at_ms);
            row.exit_code = Some(exit_code);
        }
    }
}

#[test]
fn preexec_inserts_a_run_with_command_and_metadata() {
    let mut c = Store::default();
    let mut state = CaptureState::default();
    feed(
        Some(&mut c),
        &mut state,
        &LifecycleEvent::Preexec { command: "ls -la".to_string() },
        7,
        Some("/tmp/proj"),
        1_700_000_000_000,
    );
    assert!(state.current_run_id.is_some());
    let rows = &c.rows;
    assert_eq!(rows.len(), 1);
    assert_eq!(rows[0].text, "ls -la");
    assert_eq!(rows[0].cwd.as_deref(), Some("/tmp/proj"));
    assert_eq!(rows[0].pane_id, Some(7));
    assert_eq!(rows[0].app_run_id.as_deref(), Some("test-app-run"));
    assert_eq!(rows[0].started_at_ms, 1_700_000_000_000);
    assert_eq!(rows[0].finished_at_ms, None);
    assert_eq!(rows[0].source, "termica");
}

#[test]
fn command_finished_stamps_exit_on_the_pending_run() {
    let mut c = Store::default();
    let mut state = CaptureState::default();
    feed(
        Some(&mut c),
        &mut state,
        &LifecycleEvent::Preexec { command: "ls".to_string() },
        1,
        None,
        100,
    );
    let id = state.current_run_id.expect("preexec set the id");
    feed(Some(&mut c), &mut state, &LifecycleEvent::CommandFinished { exit: 7 }, 1, None, 200);
    assert!(state.current_run_id.is_none(), "finish clears the pending id");
    let row = &c.rows[id as usize - 1];
    assert_eq!(row.finished_at_ms, Some(200));
    assert_eq!(row.exit_code, Some(7));
}

#[test]
fn command_finished_without_pending_preexec_is_silent_noop() {
    let mut c = Store::default();
    let mut state = CaptureState::default();
    feed(Some(&mut c), &mut state, &LifecycleEvent::CommandFinished { exit: 0 }, 1, None, 100);
    assert!(c.rows.is_empty());
}

#[test]
fn unrelated_events_are_ignored() {
    let mut c = Store::default();
    let mut state = CaptureState::default();
    for event in [
        LifecycleEvent::Precmd { cwd: "/tmp".to_string() },
        LifecycleEvent::Cwd { cwd: "/tmp".to_string() },
        LifecycleEvent::Continuation,
    ] {
        feed(Some(&mut c), &mut state, &event, 1, None, 100);
    }
    assert!(state.current_run_id.is_none());
    assert!(c.rows.is_empty());
}

#[test]
fn no_history_context_is_total_noop() {
    let mut state = CaptureState::default();
    feed(
        None,
        &mut state,
        &LifecycleEvent::Preexec { command: "ls".to_string() },
        1,
        None,
        100,
    );
    assert!(state.current_run_id.is_none());
}

#[test]
fn two_preexecs_in_a_row_overwrite_pending_id() {
    let mut c = Store::default();
    let mut state = CaptureState::default();
    feed(
        Some(&mut c),
        &mut state,
        &LifecycleEvent::Preexec { command: "first".to_string() },
        1,
        None,
        100,
    );
    let first_id = state.current_run_id.unwrap();
    feed(
        Some(&mut c),
        &mut state,
        &LifecycleEvent::Preexec { command: "second".to_string() },
        1,
        None,
        200,
    );
    let second_id = state.current_run_id.unwrap();
    assert_ne!(first_id, second_id);
    feed(Some(&mut c), &mut state, &LifecycleEvent::CommandFinished { exit: 0 }, 1, None, 300);
    let first_row = &c.rows[first_id as usize - 1];
    let second_row = &c.rows[second_id as usize - 1];
    assert_eq!(first_row.exit_code, None, "first row never got an exit");
    assert_eq!(second_row.exit_code, Some(0), "exit lands on the second row");
}

#[test]
fn a_row_that_was_not_written_is_not_completed() {
    let mut state = CaptureState::default();
    let event = LifecycleEvent::Preexec { command: "ls".to_string() };
    let _ = on_event(true, &mut state, &event, 1, None, 100);
    state.submitted(None);
    let done = LifecycleEvent::CommandFinished { exit: 3 };
    assert_eq!(on_event(true, &mut state, &done, 1, None, 200), CaptureAction::Nothing);
}

#[test]
fn a_command_without_a_row_leaves_earlier_rows_alone() {
    let mut state = CaptureState::default();
    state.submitted(Some(4));
    state.submitted(None);
    let finished = LifecycleEvent::CommandFinished { exit: 1 };
    assert_eq!(on_event(true, &mut state, &finished, 1, None, 100), CaptureAction::Nothing);
}
