use termica::block::BlockId;
use termica::block_selection::BlockCursor;
use termica::history::capture::CaptureAction;
use termica::history::recall::RecallOutcome;
use termica::integration::{managed_spawn_for_inner, ShellSpec};
use termica::links::Point;
use termica::markers::LifecycleEvent;
use termica::pane::completion::{
    completion_driver_request, live_completion_capable, CompletionRoute, DriverTool,
    LiveCompletions, LIVE_COMPLETION_TIMEOUT_MS,
};
use termica::pane::drain::{Drain, DrainAction, DrainInput, DrainPhase};
use termica::pane::framing::{encode_base64, submission_bytes, INTERRUPT};
use termica::pane::sealed::{
    pane_selection_range_for_block, pane_selection_text, sealed_block_rows, sealed_line_range,
    sealed_row_len, sealed_word_range, SealedBlock,
};
use termica::pane::submit::{editor_is_active, SubmitPlan};
use termica::pane::{
    apply_recall_outcome, current_cwd, effective_var_names, pty_config, start_mode, store_start,
    EditorChange, Origin, PaneMode, PaneSession, PaneView, SelectionMode, StoreStart,
};
use termica::pane_selection::{PaneCursor, PaneSelection};
use termica::terminal::{Color, NamedColor, StyledCell, StyledLine};

fn session() -> PaneSession {
    PaneSession::spawn("t".to_string(), 0)
}

fn line(s: &str) -> StyledLine {
    StyledLine {
        cells: s
            .chars()
            .map(|c| StyledCell {
                c,
                fg: Color::Named(NamedColor::Foreground),
                bg: Color::Named(NamedColor::Background),
                flags: 0,
            })
            .collect(),
    }
}

fn dummy_pane_sel() -> PaneSelection {
    PaneSelection::new(
        PaneCursor::new(BlockId(99), 0, 0),
        PaneCursor::new(BlockId(99), 0, 5),
    )
}

fn dummy_pane_sel_cross_block() -> PaneSelection {
    PaneSelection::new(
        PaneCursor::new(BlockId(50), 1, 2),
        PaneCursor::new(BlockId(99), 3, 4),
    )
}

fn event_input(event: LifecycleEvent, alternate: bool) -> DrainInput {
    DrainInput::Event { event, alternate, has_editor: true, cwd: None, now_ms: 0 }
}

fn to_events(s: &mut PaneSession, alternate: bool) -> Drain {
    let mut d = s.begin_drain();
    s.drain_step(&mut d, &DrainInput::QueueEmpty);
    s.drain_step(&mut d, &DrainInput::Responses { pending: false, now_ms: 0 });
    s.drain_step(&mut d, &DrainInput::Screen { alternate });
    assert_eq!(d.phase, DrainPhase::Events);
    d
}

fn names(actions: &[DrainAction]) -> Vec<String> {
    actions
        .iter()
        .map(|a| {
            let text = format!("{a:?}");
            text.split(' ').next().unwrap().to_string()
        })
        .collect()
}

#[test]
fn effective_var_names_prefers_shell_report_then_falls_back_to_snapshot() {
    let snapshot = vec!["HOME".to_string(), "PATH".to_string()];
    assert_eq!(effective_var_names(None, &snapshot), &snapshot[..]);
    let shell = vec!["HISTFILE".to_string()];
    assert_eq!(effective_var_names(Some(&shell), &snapshot), &shell[..]);
    let empty: Vec<String> = vec![];
    assert_eq!(effective_var_names(Some(&empty), &snapshot), &empty[..]);
}

#[test]
fn the_shells_report_replaces_the_environment() {
    let mut s = session();
    let spawn = vec!["HOME".to_string()];
    assert_eq!(s.env_var_names(&spawn), &spawn[..]);
    let mut d = to_events(&mut s, false);
    let report = LifecycleEvent::ShellVars { names: vec!["HISTFILE".to_string()] };
    s.drain_step(&mut d, &event_input(report, false));
    assert_eq!(s.env_var_names(&spawn), &["HISTFILE".to_string()][..]);
}

#[test]
fn bytes_received_accumulates_across_frames() {
    let mut s = session();
    for _ in 0..2 {
        let mut d = s.begin_drain();
        let actions = s.drain_step(&mut d, &DrainInput::Chunk { len: 5 });
        assert_eq!(names(&actions), vec!["Feed"]);
        s.drain_step(&mut d, &DrainInput::Chunk { len: 2 });
        assert_eq!(d.consumed, 7);
    }
    assert_eq!(s.bytes_received, 14);
}

#[test]
fn view_alt_screen_starts_false() {
    let v = PaneView::default();
    assert!(!v.alt_screen);
    assert!(!session().last_alt_screen);
}

#[test]
fn fish_live_reply_correlates_by_id() {
    let mut live = LiveCompletions::default();
    live.sent(5, DriverTool::FishComplete, 0);
    live.ingest_live_completion(9, &vec!["stale".to_string()]);
    assert!(live.response.is_none(), "mismatched id is ignored");
    assert!(live.in_flight.is_some(), "in-flight request still pending");
    live.ingest_live_completion(
        5,
        &vec!["hello\talias hello=echo HI".to_string(), "help\tDisplay help".to_string()],
    );
    assert!(live.in_flight.is_none(), "in-flight cleared on a correlated reply");
    let resp = live.completion_driver_poll().expect("a response is available");
    assert_eq!(resp.tool, DriverTool::FishComplete);
    assert_eq!(resp.lines, vec!["hello\talias hello=echo HI", "help\tDisplay help"]);
    assert!(live.completion_driver_poll().is_none());
}

#[test]
fn zsh_live_reply_correlates_by_id_and_tags_zsh() {
    let mut live = LiveCompletions::default();
    live.sent(2, DriverTool::ZshComplete, 0);
    live.ingest_live_completion(1, &vec!["nope".to_string()]);
    assert!(live.in_flight.is_some(), "in-flight still pending after mismatch");
    live.ingest_live_completion(
        2,
        &vec!["greethere".to_string(), "grep".to_string(), "groups".to_string()],
    );
    assert!(live.in_flight.is_none());
    let resp = live.completion_driver_poll().expect("a response is available");
    assert_eq!(resp.tool, DriverTool::ZshComplete);
    assert_eq!(resp.lines, vec!["greethere", "grep", "groups"]);
}

#[test]
fn live_completion_timeout_falls_back_to_empty_response_tagged_by_tool() {
    let mut live = LiveCompletions::default();
    live.sent(1, DriverTool::ZshComplete, 1_000);
    live.tick_live_completion_timeout(1_000 + LIVE_COMPLETION_TIMEOUT_MS - 1);
    assert!(live.in_flight.is_some(), "not yet timed out");
    assert!(live.response.is_none());
    live.tick_live_completion_timeout(1_000 + LIVE_COMPLETION_TIMEOUT_MS);
    assert!(live.in_flight.is_none(), "timed-out request dropped");
    let resp = live.completion_driver_poll().expect("empty fallback response");
    assert!(resp.lines.is_empty(), "fallback carries no candidates");
    assert_eq!(resp.tool, DriverTool::ZshComplete);
}

#[test]
fn a_new_request_supersedes_the_one_before() {
    let mut live = LiveCompletions::default();
    let first = live.begin();
    live.sent(first, DriverTool::FishComplete, 0);
    let second = live.begin();
    assert_ne!(first, second);
    assert!(live.in_flight.is_none(), "nothing waits until the new one is sent");
    live.sent(second, DriverTool::FishComplete, 0);
    live.ingest_live_completion(first, &vec!["late".to_string()]);
    assert!(live.response.is_none());
    live.next_id = u64::MAX;
    assert_eq!(live.begin(), u64::MAX);
    assert_eq!(live.next_id, 0);
}

#[test]
fn a_clock_that_jumps_does_not_overflow() {
    let mut live = LiveCompletions::default();
    live.sent(0, DriverTool::FishComplete, i64::MAX);
    live.tick_live_completion_timeout(i64::MIN);
    assert!(live.in_flight.is_some());
    live.sent(0, DriverTool::FishComplete, i64::MIN);
    live.tick_live_completion_timeout(i64::MAX);
    assert!(live.in_flight.is_none());
}

#[test]
fn only_a_fish_or_zsh_at_its_prompt_completes_by_itself() {
    let editor = PaneMode::ShellPromptEditor;
    assert!(live_completion_capable(ShellSpec::Fish, editor, true));
    assert!(live_completion_capable(ShellSpec::Zsh, editor, true));
    assert!(!live_completion_capable(ShellSpec::Bash, editor, true));
    assert!(!live_completion_capable(ShellSpec::Zsh, PaneMode::RawTerminal, true));
    assert!(!live_completion_capable(ShellSpec::Zsh, editor, false));
    let route = completion_driver_request;
    assert_eq!(route(DriverTool::ZshComplete, true, false), CompletionRoute::Live);
    assert_eq!(route(DriverTool::FishComplete, false, true), CompletionRoute::Engine);
    assert_eq!(route(DriverTool::Program, true, true), CompletionRoute::Engine);
    assert_eq!(route(DriverTool::Program, true, false), CompletionRoute::Nowhere);
}

#[test]
fn restored_pane_is_dead_with_no_pty_and_seeded_cwd() {
    let mut s = PaneSession::restored(7, 42);
    assert_eq!(start_mode(Origin::Restored), PaneMode::Dead);
    assert!(!s.is_exited(), "a restored pane must not auto-close");
    assert!(!s.has_pty);
    assert_eq!(current_cwd(None, Some("/work/proj".into())).as_deref(), Some("/work/proj"));
    assert_eq!(s.persist_pane_row(), Some(42));
    let mut d = s.begin_drain();
    assert_eq!(d.phase, DrainPhase::Done);
    assert!(s.drain_step(&mut d, &DrainInput::QueueClosed).is_empty());
    assert_eq!(d.consumed, 0);
    assert!(!s.is_exited());
}

#[test]
fn drain_on_idle_session_returns_zero() {
    let mut s = session();
    let mut d = s.begin_drain();
    assert!(s.drain_step(&mut d, &DrainInput::QueueEmpty).is_empty());
    assert_eq!(d.consumed, 0);
}

#[test]
fn is_exited_is_false_before_pty_exits() {
    let mut s = session();
    assert!(!s.is_exited(), "fresh session must not be exited");
    for _ in 0..3 {
        let mut d = s.begin_drain();
        s.drain_step(&mut d, &DrainInput::QueueEmpty);
        assert!(!s.is_exited(), "should still be running");
    }
}

#[test]
fn is_exited_flips_true_after_child_exits() {
    let mut s = session();
    let mut d = s.begin_drain();
    s.drain_step(&mut d, &DrainInput::Chunk { len: 2 });
    s.drain_step(&mut d, &DrainInput::QueueClosed);
    assert!(s.is_exited());
}

#[test]
fn is_exited_stays_latched_across_drains() {
    let mut s = session();
    let mut d = s.begin_drain();
    s.drain_step(&mut d, &DrainInput::QueueClosed);
    assert!(s.is_exited());
    for _ in 0..5 {
        let mut d = s.begin_drain();
        s.drain_step(&mut d, &DrainInput::QueueEmpty);
        assert!(s.is_exited());
    }
}

#[test]
fn drain_emits_pty_exit_to_event_recorder() {
    let mut s = session();
    let mut d = s.begin_drain();
    s.drain_step(&mut d, &DrainInput::QueueClosed);
    s.drain_step(&mut d, &DrainInput::Responses { pending: false, now_ms: 0 });
    s.drain_step(&mut d, &DrainInput::Screen { alternate: false });
    s.drain_step(&mut d, &DrainInput::NoMoreEvents);
    s.drain_step(&mut d, &DrainInput::Screen { alternate: false });
    s.drain_step(&mut d, &DrainInput::Directory { known: false });
    s.drain_step(&mut d, &DrainInput::Branch { cwd_known: false, branch: None });
    let mut again = d;
    let actions = s.drain_step(&mut d, &DrainInput::Mode { mode: PaneMode::RawTerminal });
    assert_eq!(names(&actions), vec!["RecordExit", "ObserveExit", "RecordTransitions"]);
    assert_eq!(actions[0].mode_after(PaneMode::RawTerminal), PaneMode::RawTerminal);
    assert_eq!(actions[1].mode_after(PaneMode::RawTerminal), PaneMode::Dead);
    assert_eq!(d.phase, DrainPhase::Done);
    assert!(s.drain_step(&mut again, &DrainInput::Mode { mode: PaneMode::Dead }).is_empty());
}

#[test]
fn precmd_after_unrecovered_alt_screen_clears_alt_screen_flag() {
    let mut s = session();
    let mut d = to_events(&mut s, true);
    assert!(s.last_alt_screen);
    let event = LifecycleEvent::Precmd { cwd: "/tmp".to_string() };
    let actions = s.drain_step(&mut d, &event_input(event, true));
    assert_eq!(
        names(&actions),
        vec![
            "RecordEvent",
            "LeaveAlternateScreen",
            "ObserveScreen",
            "RecordTransitions",
            "Capture",
            "ObserveBlocks",
            "ObserveController",
            "RecordTransitions",
        ]
    );
    assert!(matches!(actions[2], DrainAction::ObserveScreen { alternate: false, frame: 1 }));
    assert!(!s.last_alt_screen);
}

#[test]
fn precmd_in_same_burst_as_1049l_still_promotes_to_editor() {
    let mut s = session();
    let mut first = to_events(&mut s, true);
    s.drain_step(&mut first, &DrainInput::NoMoreEvents);
    let mut d = s.begin_drain();
    s.drain_step(&mut d, &DrainInput::QueueEmpty);
    s.drain_step(&mut d, &DrainInput::Responses { pending: false, now_ms: 0 });
    let early = s.drain_step(
        &mut d,
        &event_input(LifecycleEvent::Precmd { cwd: "/tmp".to_string() }, false),
    );
    assert!(early.is_empty(), "no message is taken in before the screen is looked at");
    let edge = s.drain_step(&mut d, &DrainInput::Screen { alternate: false });
    assert!(matches!(edge[0], DrainAction::ObserveScreen { alternate: false, frame: 2 }));
    let actions = s.drain_step(
        &mut d,
        &event_input(LifecycleEvent::Precmd { cwd: "/tmp".to_string() }, false),
    );
    assert_eq!(names(&actions)[3], "ObserveController");
}

#[test]
fn precmd_clears_last_submitted_as_backstop_for_missed_preexec() {
    let mut s = session();
    s.submit_editor_command(Some("echo a"), PaneMode::ShellPromptEditor);
    assert_eq!(s.last_submitted.as_deref(), Some("echo a"));
    let mut d = to_events(&mut s, false);
    s.drain_step(
        &mut d,
        &event_input(LifecycleEvent::Precmd { cwd: "/tmp".to_string() }, false),
    );
    assert!(s.last_submitted.is_none());
    let plan = s.submit_editor_command(Some("echo a"), PaneMode::ShellPromptEditor);
    assert_eq!(plan, SubmitPlan::Send { bytes: b"echo a\r".to_vec() });
}

/// What the editor holds after a message of the shell that waits for more.
fn continued(s: &mut PaneSession) -> String {
    let mut d = to_events(s, false);
    let actions = s.drain_step(&mut d, &event_input(LifecycleEvent::Continuation, false));
    match &actions[1] {
        DrainAction::RestoreEditor { text } => text.clone(),
        other => panic!("expected RestoreEditor, got {other:?}"),
    }
}

#[test]
fn continuation_event_restores_editor_text_with_newline() {
    let mut s = session();
    let plan = s.submit_editor_command(Some("echo 1 &&"), PaneMode::ShellPromptEditor);
    assert_eq!(plan, SubmitPlan::Send { bytes: b"echo 1 &&\r".to_vec() });
    assert_eq!(plan.mode_after(PaneMode::ShellPromptEditor), PaneMode::RawTerminal);
    assert!(s.last_submitted.as_deref() == Some("echo 1 &&"));
    assert_eq!(continued(&mut s), "echo 1 &&\n", "editor should hold submitted text + \\n");
    assert!(s.awaiting_continuation(true, PaneMode::ShellPromptEditor));
    let plan =
        s.submit_editor_command(Some("echo 1 &&\necho 2"), PaneMode::ShellPromptEditor);
    assert_eq!(
        plan,
        SubmitPlan::Send { bytes: b"echo 2\r".to_vec() },
        "second submit must send only the suffix beyond last_submitted"
    );
    assert_eq!(s.last_submitted.as_deref(), Some("echo 1 &&\necho 2"));
    assert_eq!(continued(&mut s), "echo 1 &&\necho 2\n");
}

#[test]
fn every_restored_line_is_sent_once() {
    let mut s = session();
    s.submit_editor_command(Some("for i in 1 2 3; do"), PaneMode::ShellPromptEditor);
    assert_eq!(continued(&mut s), "for i in 1 2 3; do\n");
    assert_eq!(continued(&mut s), "for i in 1 2 3; do\n");
    let plan = s.submit_editor_command(
        Some("for i in 1 2 3; do\n  echo $i\ndone"),
        PaneMode::ShellPromptEditor,
    );
    assert_eq!(plan, SubmitPlan::Send { bytes: b"  echo $i\ndone\r".to_vec() });
}

#[test]
fn submit_editor_command_demotes_mode_clears_editor_arms_suppressor() {
    let mut s = session();
    let plan = s.submit_editor_command(Some("hello"), PaneMode::ShellPromptEditor);
    assert_eq!(plan.mode_after(PaneMode::ShellPromptEditor), PaneMode::RawTerminal);
    assert_eq!(
        plan.editor_after(Some("hello".to_string())),
        Some(String::new()),
        "editor should be empty after submit"
    );
    assert_eq!(plan, SubmitPlan::Send { bytes: b"hello\r".to_vec() });
    assert_eq!(s.last_submitted.as_deref(), Some("hello"));
    let none = s.submit_editor_command(None, PaneMode::RawTerminal);
    assert_eq!(none, SubmitPlan::Nothing);
    assert_eq!(none.editor_after(None), None);
}

#[test]
fn ctrl_c_aborts_pending_continuation_and_unlocks_the_pane() {
    let mut s = session();
    s.submit_editor_command(Some("echo \"!\""), PaneMode::ShellPromptEditor);
    assert!(s.last_submitted.is_some());
    assert_eq!(continued(&mut s), "echo \"!\"\n");
    assert!(s.awaiting_continuation(true, PaneMode::ShellPromptEditor));
    assert!(s.abort_continuation(true, PaneMode::ShellPromptEditor));
    assert!(!s.awaiting_continuation(true, PaneMode::ShellPromptEditor));
    assert!(s.last_submitted.is_none(), "last_submitted must be cleared");
    assert_eq!(INTERRUPT, b'\x03');
    let plan = s.submit_editor_command(Some("ls"), PaneMode::ShellPromptEditor);
    assert_eq!(plan, SubmitPlan::Send { bytes: b"ls\r".to_vec() });
}

#[test]
fn retyping_a_different_command_during_continuation_heals_the_pane() {
    let mut s = session();
    s.submit_editor_command(Some("echo \"!\""), PaneMode::ShellPromptEditor);
    continued(&mut s);
    assert!(s.awaiting_continuation(true, PaneMode::ShellPromptEditor));
    let first = s.submit_editor_command(Some("ls"), PaneMode::ShellPromptEditor);
    assert_eq!(first, SubmitPlan::Interrupt);
    assert!(!s.awaiting_continuation(true, PaneMode::ShellPromptEditor));
    assert!(s.last_submitted.is_none(), "last_submitted must be cleared, not diffed");
    assert_eq!(
        first.editor_after(Some("ls".to_string())).as_deref(),
        Some("ls"),
        "retyped text must be kept in the editor for the 2nd Enter"
    );
    assert_eq!(
        first.mode_after(PaneMode::ShellPromptEditor),
        PaneMode::ShellPromptEditor,
        "abort stays in the editor at the fresh prompt"
    );
    let second = s.submit_editor_command(Some("ls"), PaneMode::ShellPromptEditor);
    assert_eq!(second, SubmitPlan::Send { bytes: b"ls\r".to_vec() });
}

#[test]
fn fish_gets_a_command_on_one_line() {
    assert_eq!(encode_base64(b""), "");
    assert_eq!(encode_base64(b"f"), "Zg==");
    assert_eq!(encode_base64(b"fo"), "Zm8=");
    assert_eq!(encode_base64(b"foo"), "Zm9v");
    assert_eq!(encode_base64(b"foobar"), "Zm9vYmFy");
    assert_eq!(encode_base64(&[0xfb, 0xef, 0xff]), "++//");
    assert_eq!(submission_bytes("if true\nls\nend", ShellSpec::Fish), b"aWYgdHJ1ZQpscwplbmQ=\r");
    assert_eq!(submission_bytes("ls\nid", ShellSpec::Zsh), b"ls\nid\r");
    assert_eq!(submission_bytes("ls", ShellSpec::Bash), b"ls\r");
}

#[test]
fn abort_continuation_is_a_noop_at_an_idle_prompt() {
    let mut s = session();
    assert!(!s.awaiting_continuation(true, PaneMode::ShellPromptEditor));
    assert!(!s.abort_continuation(true, PaneMode::ShellPromptEditor));
    assert!(editor_is_active(true, PaneMode::ShellPromptEditor));
    assert!(!editor_is_active(false, PaneMode::ShellPromptEditor));
    assert!(!editor_is_active(true, PaneMode::RawTerminal));
}

#[test]
fn an_empty_line_is_sent_too() {
    let mut s = session();
    let plan = s.submit_editor_command(Some(""), PaneMode::ShellPromptEditor);
    assert_eq!(plan, SubmitPlan::Send { bytes: b"\r".to_vec() });
}

#[test]
fn lifecycle_preexec_seen_in_drain_promotes_tail_to_running() {
    let mut s = PaneSession::spawn_managed("t".into(), 3, ShellSpec::Fish, true, Some((8, 9)));
    assert_eq!((s.persist_pane_row(), s.persist_session()), (Some(8), Some(9)));
    assert_eq!((s.pane_id(), s.shell()), (3, ShellSpec::Fish));
    let mut d = to_events(&mut s, false);
    let input = DrainInput::Event {
        event: LifecycleEvent::Preexec { command: "ls -la".to_string() },
        alternate: false,
        has_editor: false,
        cwd: Some("/w".to_string()),
        now_ms: 50,
    };
    let actions = s.drain_step(&mut d, &input);
    match &actions[1] {
        DrainAction::Capture {
            action: CaptureAction::RecordSubmit { text, cwd, pane_id, started_at_ms },
        } => {
            assert_eq!(text, "ls -la");
            assert_eq!(cwd.as_deref(), Some("/w"));
            assert_eq!((*pane_id, *started_at_ms), (3, 50));
        }
        other => panic!("expected a submit, got {other:?}"),
    }
    assert!(matches!(actions[2], DrainAction::ObserveBlocks { frame: 1, now_ms: 50 }));
    s.run_recorded(Some(77));
    let done = event_input(LifecycleEvent::CommandFinished { exit: 4 }, false);
    let actions = s.drain_step(&mut d, &done);
    assert!(d.command_finished);
    assert!(matches!(
        actions[1],
        DrainAction::Capture {
            action: CaptureAction::RecordFinish { id: 77, finished_at_ms: 0, exit_code: 4 }
        }
    ));
}

#[test]
fn a_frame_asks_for_the_repository_and_the_pull_request() {
    let mut s = session();
    for (branch, forced) in [(Some("main"), true), (Some("main"), false), (None, true)] {
        let mut d = to_events(&mut s, false);
        if branch.is_none() {
            s.drain_step(
                &mut d,
                &event_input(LifecycleEvent::CommandFinished { exit: 0 }, false),
            );
        }
        s.drain_step(&mut d, &DrainInput::NoMoreEvents);
        s.drain_step(&mut d, &DrainInput::Screen { alternate: false });
        let git = s.drain_step(&mut d, &DrainInput::Directory { known: true });
        match git[0] {
            DrainAction::RequestGit { forced } => assert_eq!(forced, branch.is_none()),
            _ => panic!("expected a request"),
        }
        let input =
            DrainInput::Branch { cwd_known: true, branch: branch.map(|b| b.to_string()) };
        let pr = s.drain_step(&mut d, &input);
        match pr[0] {
            DrainAction::RequestPullRequest { forced: f } => assert_eq!(f, forced),
            _ => panic!("expected a request"),
        }
        assert_eq!(names(&pr)[1], "PollPullRequest");
    }
}

#[test]
fn answers_of_the_terminal_go_out_before_the_clock_ticks() {
    let mut s = session();
    let mut d = s.begin_drain();
    s.drain_step(&mut d, &DrainInput::QueueEmpty);
    let actions =
        s.drain_step(&mut d, &DrainInput::Responses { pending: true, now_ms: 0 });
    assert_eq!(names(&actions), vec!["WriteResponses", "TickBootstrap", "RecordTransitions"]);
    assert_eq!(s.frame, 1);
}

#[test]
fn a_change_of_mode_is_recorded_once() {
    let mut s = session();
    assert!(!s.take_pending_transition(0));
    assert!(s.take_pending_transition(4));
    assert!(!s.take_pending_transition(4));
}

#[test]
fn nothing_is_written_while_the_shell_starts_up() {
    let s = session();
    assert_eq!(start_mode(Origin::Managed), PaneMode::Bootstrapping);
    assert_eq!(start_mode(Origin::Bare), PaneMode::RawTerminal);
    assert!(!s.may_write(PaneMode::Bootstrapping));
    assert!(s.may_write(PaneMode::RawTerminal));
    assert!(!PaneSession::restored(1, 2).may_write(PaneMode::RawTerminal));
    let v = s.view_of(
        PaneMode::Bootstrapping,
        true,
        24,
        80,
        None,
        Some("/t".to_string()),
        "x".to_string(),
    );
    assert!(v.is_bootstrapping && v.alt_screen);
    assert_eq!((v.rows, v.cols, v.cwd.as_deref()), (24, 80, Some("/t")));
}

#[test]
fn a_plan_becomes_a_program_and_its_arguments() {
    let plan = managed_spawn_for_inner(ShellSpec::Fish, "s", false, "x", None).unwrap();
    let env = plan.env.clone();
    let config = pty_config(plan, Some("/w".to_string()), 24, 80);
    assert_eq!(config.program, "fish");
    assert_eq!(config.args, vec!["--no-config", "--init-command", "x", "-i"]);
    assert_eq!(config.env, env);
    assert_eq!(store_start(false, Some(3)), StoreStart::Off);
    assert_eq!(store_start(true, Some(3)), StoreStart::Resume(3));
    assert_eq!(store_start(true, None), StoreStart::Begin);
}

#[test]
fn the_history_walks_through_the_editor() {
    let mut s = PaneSession::spawn_managed("t".into(), 0, ShellSpec::Zsh, true, None);
    let query = || vec!["ls".to_string(), "cd".to_string()];
    let up = s.editor_history_prev(Some(("draft", 2)), query).unwrap();
    assert_eq!(up, EditorChange { text: "ls".to_string(), cursor: None });
    let down = s.editor_history_next(true).unwrap();
    assert_eq!(down, EditorChange { text: "draft".to_string(), cursor: Some(2) });
    assert!(s.editor_history_next(true).is_none());
    assert!(s.editor_history_prev(None, query).is_none());
    s.clear_history_recall();
    assert!(!s.recall.is_walking());
    assert!(session().editor_history_prev(Some(("", 0)), query).is_none());
    let outcome = RecallOutcome::Replace { new_text: "x".to_string(), new_cursor: None };
    assert!(apply_recall_outcome(false, outcome).is_none());
}

#[test]
fn set_pane_selection_clears_live_grid_selection() {
    let mut s = session();
    s.start_selection(Point::new(0, 0), SelectionMode::Char);
    assert!(s.selection().is_some(), "precondition: live grid selection set");
    s.set_pane_selection(dummy_pane_sel());
    assert!(s.selection().is_none(), "live-grid selection should be cleared");
    assert!(s.pane_selection().is_some(), "pane selection should be set");
}

#[test]
fn start_selection_clears_pane_selection() {
    let mut s = session();
    s.set_pane_selection(dummy_pane_sel());
    assert!(s.pane_selection().is_some(), "precondition");
    s.start_selection(Point::new(0, 0), SelectionMode::Char);
    assert!(s.pane_selection().is_none(), "pane selection should be cleared");
    assert!(s.selection().is_some(), "live-grid selection should be set");
}

#[test]
fn a_link_is_selected_whole_and_a_drag_moves_the_head() {
    let mut s = session();
    s.set_pane_selection(dummy_pane_sel());
    s.start_url_selection(Point::new(1, 2), Point::new(1, 9));
    assert!(s.pane_selection().is_none());
    s.extend_selection(Point::new(2, 4));
    let sel = s.selection().unwrap();
    assert_eq!((sel.anchor, sel.head), (Point::new(1, 2), Point::new(2, 4)));
    assert_eq!((sel.mode, sel.on_link), (SelectionMode::Word, true));
    s.clear_selection();
    s.extend_selection(Point::new(3, 3));
    assert!(s.selection().is_none());
}

#[test]
fn pane_selection_text_returns_none_when_blocks_do_not_exist() {
    let mut s = session();
    s.set_pane_selection(dummy_pane_sel());
    assert_eq!(pane_selection_text(&Vec::new(), s.pane_selection()), None);
}

#[test]
fn update_pane_selection_head_preserves_anchor() {
    let mut s = session();
    s.set_pane_selection(dummy_pane_sel());
    let original_anchor = s.pane_selection().unwrap().anchor;
    s.update_pane_selection_head(PaneCursor::new(BlockId(99), 4, 7));
    let sel = s.pane_selection().expect("still set");
    assert_eq!(sel.anchor, original_anchor, "anchor stays pinned");
    assert_eq!(sel.head, PaneCursor::new(BlockId(99), 4, 7));
}

#[test]
fn update_pane_selection_endpoints_can_cross_blocks() {
    let mut s = session();
    s.set_pane_selection(dummy_pane_sel());
    s.update_pane_selection_endpoints(
        PaneCursor::new(BlockId(99), 0, 0),
        PaneCursor::new(BlockId(99), 5, 10),
    );
    let sel = s.pane_selection().expect("still set");
    assert_eq!(sel.anchor.col, 0);
    assert_eq!(sel.head.col, 10);
}

#[test]
fn pane_selection_accepts_cross_block_anchor_and_head() {
    let mut s = session();
    s.set_pane_selection(dummy_pane_sel_cross_block());
    let sel = s.pane_selection().expect("set");
    assert_eq!(sel.anchor.block_id, BlockId(50));
    assert_eq!(sel.head.block_id, BlockId(99));
    assert!(!sel.is_within_one_block());
}

#[test]
fn clear_pane_selection_leaves_live_grid_alone() {
    let mut s = session();
    s.start_selection(Point::new(0, 0), SelectionMode::Char);
    s.clear_pane_selection();
    assert!(s.selection().is_some(), "live-grid selection untouched");
}

#[test]
fn finished_blocks_answer_for_their_rows() {
    let blocks = vec![
        SealedBlock {
            id: BlockId(4),
            command: "echo a\necho bc".to_string(),
            snapshot: vec![line("out put   ")],
        },
        SealedBlock { id: BlockId(6), command: String::new(), snapshot: vec![line("x")] },
    ];
    assert_eq!(sealed_block_rows(&blocks, BlockId(4)), Some((2, 1)));
    assert_eq!(sealed_block_rows(&blocks, BlockId(6)), Some((0, 1)));
    assert_eq!(sealed_block_rows(&blocks, BlockId(5)), None);
    assert_eq!(sealed_row_len(&blocks, BlockId(4), 1), Some(7));
    assert_eq!(sealed_row_len(&blocks, BlockId(4), 2), Some(7));
    assert_eq!(sealed_row_len(&blocks, BlockId(4), 3), None);
    let word = |c: char| c.is_alphanumeric() || c == '_';
    let at = |row: usize, col: usize| BlockCursor::new(row, col);
    assert_eq!(
        sealed_word_range(&blocks, BlockId(4), at(1, 6), &word),
        Some((at(1, 5), at(1, 7)))
    );
    assert_eq!(
        sealed_word_range(&blocks, BlockId(4), at(2, 1), &word),
        Some((at(2, 0), at(2, 3)))
    );
    assert_eq!(sealed_word_range(&blocks, BlockId(4), at(9, 0), &word), None);
    assert_eq!(sealed_line_range(&blocks, BlockId(4), at(2, 1)), Some((at(2, 0), at(2, 10))));
    assert_eq!(sealed_line_range(&blocks, BlockId(9), at(0, 0)), None);
    let sel = PaneSelection::new(
        PaneCursor::new(BlockId(4), 1, 5),
        PaneCursor::new(BlockId(6), 0, 1),
    );
    assert_eq!(pane_selection_text(&blocks, Some(&sel)).as_deref(), Some("bc\nout put\nx"));
    assert_eq!(pane_selection_text(&blocks, None), None);
    assert_eq!(
        pane_selection_range_for_block(Some(&sel), BlockId(6), 1),
        Some((at(0, 0), at(0, 1)))
    );
    assert_eq!(pane_selection_range_for_block(None, BlockId(6), 1), None);
}
