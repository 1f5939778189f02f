//! One frame of a pane: what came from the shell, and what is to be done about
//! it, in order.

use crate::history::capture::{after_event, captured, on_event, ActionView, CaptureAction};
use crate::json::copy_strings;
use crate::markers::{EventView, LifecycleEvent};
use crate::osc::text_view;
use crate::pane::completion::{live_answered, live_ticked};
use crate::pane::{PaneMode, PaneSession, SessionView};
use crate::text::same_text;
use vstd::prelude::*;

verus! {

/// Where a frame stands.
#[derive(Debug, Clone, Copy, PartialEq, Eq, Structural)]
pub enum DrainPhase {
    /// Bytes of the shell are taken in.
    Receiving,
    /// What the terminal has to say to the program is sent.
    Answering,
    /// The screen is looked at, before any message is.
    ScreenBefore,
    /// The shell's messages are taken in.
    Events,
    /// The screen is looked at once more.
    ScreenAfter,
    /// The state of the repository is asked for.
    Git,
    /// The pull request is asked for.
    PullRequest,
    /// The end of the shell is looked at.
    Exit,
    /// The frame is over.
    Done,
}

/// A frame: where it stands, how many bytes it has taken in, and whether a
/// command ended in it.
#[derive(Debug, Clone, Copy, PartialEq, Eq, Structural)]
pub struct Drain {
    pub phase: DrainPhase,
    pub consumed: usize,
    pub command_finished: bool,
}

/// What the caller reports.
#[derive(Debug)]
pub enum DrainInput {
    /// Some bytes of the shell.
    Chunk { len: usize },
    /// There are no more bytes for now.
    QueueEmpty,
    /// There will be no more bytes.
    QueueClosed,
    /// Whether the terminal has an answer for the program, and the time.
    Responses { pending: bool, now_ms: i64 },
    /// Whether the alternate screen is on.
    Screen { alternate: bool },
    /// A message of the shell; whether the alternate screen is on and there is an
    /// editor, the working directory, and the time.
    Event {
        event: LifecycleEvent,
        alternate: bool,
        has_editor: bool,
        cwd: Option<String>,
        now_ms: i64,
    },
    /// There are no more messages.
    NoMoreEvents,
    /// Whether the working directory is known.
    Directory { known: bool },
    /// Whether the working directory is known, and the branch.
    Branch { cwd_known: bool, branch: Option<String> },
    /// The mode of the pane.
    Mode { mode: PaneMode },
}

/// What the caller reports, as mathematics.
pub enum InputView {
    Chunk { len: usize },
    QueueEmpty,
    QueueClosed,
    Responses { pending: bool, now_ms: i64 },
    Screen { alternate: bool },
    Event {
        event: EventView,
        alternate: bool,
        has_editor: bool,
        cwd: Option<Seq<char>>,
        now_ms: i64,
    },
    NoMoreEvents,
    Directory { known: bool },
    Branch { cwd_known: bool, branch: Option<Seq<char>> },
    Mode { mode: PaneMode },
}

impl View for DrainInput {
    type V = InputView;

    open spec fn view(&self) -> InputView {
        match *self {
            DrainInput::Chunk { len } => InputView::Chunk { len },
            DrainInput::QueueEmpty => InputView::QueueEmpty,
            DrainInput::QueueClosed => InputView::QueueClosed,
            DrainInput::Responses { pending, now_ms } => InputView::Responses { pending, now_ms },
            DrainInput::Screen { alternate } => InputView::Screen { alternate },
            DrainInput::Event { event, alternate, has_editor, cwd, now_ms } => InputView::Event {
                event: event@,
                alternate,
                has_editor,
                cwd: text_view(cwd),
                now_ms,
            },
            DrainInput::NoMoreEvents => InputView::NoMoreEvents,
            DrainInput::Directory { known } => InputView::Directory { known },
            DrainInput::Branch { cwd_known, branch } => InputView::Branch {
                cwd_known,
                branch: text_view(branch),
            },
            DrainInput::Mode { mode } => InputView::Mode { mode },
        }
    }
}

/// What the caller is to do.
#[derive(Debug)]
pub enum DrainAction {
    /// Feed the bytes to the terminal.
    Feed,
    /// Write the terminal's answer to the shell; a failure means nothing.
    WriteResponses,
    /// Let the mode machine see whether the start-up took too long.
    TickBootstrap { frame: u64 },
    /// Record a change of mode that has not been recorded.
    RecordTransitions,
    /// Tell the mode machine whether the alternate screen is on.
    ObserveScreen { alternate: bool, frame: u64 },
    /// Record the message.
    RecordEvent,
    /// Make this the text of the editor.
    RestoreEditor { text: String },
    /// Feed the terminal the sequence that leaves the alternate screen.
    LeaveAlternateScreen,
    /// Have the history record this.
    Capture { action: CaptureAction },
    /// Hand the message to the blocks, with the time and the state of the
    /// repository; a block that it finishes goes to the store.
    ObserveBlocks { frame: u64, now_ms: i64 },
    /// Hand the message to the mode machine.
    ObserveController { frame: u64 },
    /// Ask for the state of the repository, even where the directory is the same
    /// if `forced`.
    RequestGit { forced: bool },
    /// Take in the state of the repository, if it has come.
    PollGit,
    /// Ask for the pull request, even where the directory is the same if `forced`.
    RequestPullRequest { forced: bool },
    /// Take in the pull request, if it has come.
    PollPullRequest,
    /// Record that the shell has ended.
    RecordExit,
    /// Tell the mode machine that the shell has ended.
    ObserveExit { frame: u64 },
}

/// What the caller is to do, as mathematics.
pub enum DoView {
    Feed,
    WriteResponses,
    TickBootstrap { frame: u64 },
    RecordTransitions,
    ObserveScreen { alternate: bool, frame: u64 },
    RecordEvent,
    RestoreEditor { text: Seq<char> },
    LeaveAlternateScreen,
    Capture { action: ActionView },
    ObserveBlocks { frame: u64, now_ms: i64 },
    ObserveController { frame: u64 },
    RequestGit { forced: bool },
    PollGit,
    RequestPullRequest { forced: bool },
    PollPullRequest,
    RecordExit,
    ObserveExit { frame: u64 },
}

impl View for DrainAction {
    type V = DoView;

    open spec fn view(&self) -> DoView {
        match *self {
            DrainAction::Feed => DoView::Feed,
            DrainAction::WriteResponses => DoView::WriteResponses,
            DrainAction::TickBootstrap { frame } => DoView::TickBootstrap { frame },
            DrainAction::RecordTransitions => DoView::RecordTransitions,
            DrainAction::ObserveScreen { alternate, frame } => DoView::ObserveScreen {
                alternate,
                frame,
            },
            DrainAction::RecordEvent => DoView::RecordEvent,
            DrainAction::RestoreEditor { text } => DoView::RestoreEditor { text: text@ },
            DrainAction::LeaveAlternateScreen => DoView::LeaveAlternateScreen,
            DrainAction::Capture { action } => DoView::Capture { action: action@ },
            DrainAction::ObserveBlocks { frame, now_ms } => DoView::ObserveBlocks {
                frame,
                now_ms,
            },
            DrainAction::ObserveController { frame } => DoView::ObserveController { frame },
            DrainAction::RequestGit { forced } => DoView::RequestGit { forced },
            DrainAction::PollGit => DoView::PollGit,
            DrainAction::RequestPullRequest { forced } => DoView::RequestPullRequest { forced },
            DrainAction::PollPullRequest => DoView::PollPullRequest,
            DrainAction::RecordExit => DoView::RecordExit,
            DrainAction::ObserveExit { frame } => DoView::ObserveExit { frame },
        }
    }
}

/// The mode after an action: a shell that has ended leaves the pane dead. What other
/// messages make of the mode is up to the mode machine.
pub open spec fn mode_told(mode: PaneMode, action: DoView) -> PaneMode {
    if action is ObserveExit {
        PaneMode::Dead
    } else {
        mode
    }
}

impl DrainAction {
    /// The mode after the action, as far as the action itself settles it.
    pub fn mode_after(&self, mode: PaneMode) -> (r: PaneMode)
        ensures
            r == mode_told(mode, self@),
    {
        match self {
            DrainAction::ObserveExit { .. } => PaneMode::Dead,
            _ => mode,
        }
    }
}

/// The view of actions.
pub open spec fn actions_view(actions: Seq<DrainAction>) -> Seq<DoView> {
    actions.map_values(|a: DrainAction| a@)
}

// ---- what a step does --------------------------------------------------

/// The next frame number.
pub open spec fn next_frame(frame: u64) -> u64 {
    if frame == u64::MAX {
        frame
    } else {
        (frame + 1) as u64
    }
}

/// What a look at the screen has done: a change is told to the mode machine.
pub open spec fn screen_actions(v: SessionView, alternate: bool) -> Seq<DoView> {
    if alternate != v.last_alt_screen {
        seq![
            DoView::ObserveScreen { alternate, frame: v.frame },
            DoView::RecordTransitions,
        ]
    } else {
        Seq::empty()
    }
}

/// The pane after a look at the screen.
pub open spec fn after_screen(v: SessionView, alternate: bool) -> SessionView {
    SessionView { last_alt_screen: alternate, ..v }
}

/// Does the message mean that the command that was sent last has started, or that
/// a new prompt is there?
pub open spec fn settles(event: EventView) -> bool {
    event is Preexec || event is Precmd
}

/// Is a screen left on that no program owns any more? A new prompt shows it.
pub open spec fn stale_screen(event: EventView, alternate: bool) -> bool {
    event is Precmd && alternate
}

/// The text that goes back into the editor: what was sent last, where the shell
/// waits for the rest of it, with a newline behind it for that rest.
pub open spec fn restored_text(v: SessionView, event: EventView, has_editor: bool) -> Option<
    Seq<char>,
> {
    if event is Continuation && has_editor {
        match v.last_submitted {
            Some(text) => Some(text.push('\n')),
            None => None,
        }
    } else {
        None
    }
}

/// The pane after a message.
pub open spec fn after_message(v: SessionView, event: EventView, alternate: bool) -> SessionView {
    SessionView {
        shell_var_names: match event {
            EventView::ShellVars { names } => Some(names),
            _ => v.shell_var_names,
        },
        live: match event {
            EventView::Completion { id, lines } => live_answered(v.live, id, lines),
            _ => v.live,
        },
        last_submitted: if settles(event) {
            None
        } else {
            v.last_submitted
        },
        last_alt_screen: if stale_screen(event, alternate) {
            false
        } else {
            v.last_alt_screen
        },
        capture_state: after_event(v.capture_state, v.history, event),
        ..v
    }
}

/// What a message has done, in order. The editor gets its text back before the
/// mode machine makes it visible; a stale screen is left, and the mode machine
/// told so, before it sees the new prompt; and the blocks see the message before
/// the mode machine.
pub open spec fn message_actions(
    v: SessionView,
    event: EventView,
    alternate: bool,
    has_editor: bool,
    cwd: Option<Seq<char>>,
    now_ms: i64,
) -> Seq<DoView> {
    let restore = match restored_text(v, event, has_editor) {
        Some(text) => seq![DoView::RestoreEditor { text }],
        None => Seq::empty(),
    };
    let leave = if stale_screen(event, alternate) {
        seq![
            DoView::LeaveAlternateScreen,
            DoView::ObserveScreen { alternate: false, frame: v.frame },
            DoView::RecordTransitions,
        ]
    } else {
        Seq::empty()
    };
    seq![DoView::RecordEvent] + restore + leave + seq![
        DoView::Capture {
            action: captured(v.capture_state, v.history, event, v.pane_id, cwd, now_ms),
        },
        DoView::ObserveBlocks { frame: v.frame, now_ms },
        DoView::ObserveController { frame: v.frame },
        DoView::RecordTransitions,
    ]
}

/// Does the report fit where the frame stands?
pub open spec fn fits(phase: DrainPhase, input: InputView) -> bool {
    match phase {
        DrainPhase::Receiving => input is Chunk || input is QueueEmpty || input is QueueClosed,
        DrainPhase::Answering => input is Responses,
        DrainPhase::ScreenBefore => input is Screen,
        DrainPhase::Events => input is Event || input is NoMoreEvents,
        DrainPhase::ScreenAfter => input is Screen,
        DrainPhase::Git => input is Directory,
        DrainPhase::PullRequest => input is Branch,
        DrainPhase::Exit => input is Mode,
        DrainPhase::Done => false,
    }
}

/// Where the frame stands after a report that fits.
pub open spec fn next_phase(phase: DrainPhase, input: InputView) -> DrainPhase {
    match phase {
        DrainPhase::Receiving => if input is Chunk {
            DrainPhase::Receiving
        } else {
            DrainPhase::Answering
        },
        DrainPhase::Answering => DrainPhase::ScreenBefore,
        DrainPhase::ScreenBefore => DrainPhase::Events,
        DrainPhase::Events => if input is Event {
            DrainPhase::Events
        } else {
            DrainPhase::ScreenAfter
        },
        DrainPhase::ScreenAfter => DrainPhase::Git,
        DrainPhase::Git => DrainPhase::PullRequest,
        DrainPhase::PullRequest => DrainPhase::Exit,
        DrainPhase::Exit => DrainPhase::Done,
        DrainPhase::Done => DrainPhase::Done,
    }
}

/// The frame after a report that fits.
pub open spec fn next_drain(d: Drain, input: InputView) -> Drain {
    Drain {
        phase: next_phase(d.phase, input),
        consumed: match input {
            InputView::Chunk { len } => (d.consumed + len) as usize,
            _ => d.consumed,
        },
        command_finished: match input {
            InputView::Event { event, .. } => d.command_finished || event is CommandFinished,
            _ => d.command_finished,
        },
    }
}

/// The pane after a report that fits.
pub open spec fn next_session(v: SessionView, input: InputView) -> SessionView {
    match input {
        InputView::Chunk { len } => SessionView {
            bytes_received: (v.bytes_received + len) as u64,
            ..v
        },
        InputView::QueueClosed => SessionView { exited: true, ..v },
        InputView::Responses { now_ms, .. } => SessionView {
            frame: next_frame(v.frame),
            live: live_ticked(v.live, now_ms),
            ..v
        },
        InputView::Screen { alternate } => after_screen(v, alternate),
        InputView::Event { event, alternate, .. } => after_message(v, event, alternate),
        InputView::Branch { cwd_known, branch } => if cwd_known {
            SessionView { last_git_branch: branch, ..v }
        } else {
            v
        },
        _ => v,
    }
}

/// What a report that fits has done, in order.
pub open spec fn drain_actions(v: SessionView, d: Drain, input: InputView) -> Seq<DoView> {
    match input {
        InputView::Chunk { .. } => seq![DoView::Feed],
        InputView::Responses { pending, .. } => (if pending {
            seq![DoView::WriteResponses]
        } else {
            Seq::empty()
        }) + seq![
            DoView::TickBootstrap { frame: next_frame(v.frame) },
            DoView::RecordTransitions,
        ],
        InputView::Screen { alternate } => screen_actions(v, alternate),
        InputView::Event { event, alternate, has_editor, cwd, now_ms } => message_actions(
            v,
            event,
            alternate,
            has_editor,
            cwd,
            now_ms,
        ),
        InputView::Directory { known } => if known {
            seq![DoView::RequestGit { forced: d.command_finished }, DoView::PollGit]
        } else {
            seq![DoView::PollGit]
        },
        InputView::Branch { cwd_known, branch } => if cwd_known {
            seq![
                DoView::RequestPullRequest { forced: branch != v.last_git_branch },
                DoView::PollPullRequest,
            ]
        } else {
            seq![DoView::PollPullRequest]
        },
        InputView::Mode { mode } => if v.exited && mode != PaneMode::Dead {
            seq![
                DoView::RecordExit,
                DoView::ObserveExit { frame: v.frame },
                DoView::RecordTransitions,
            ]
        } else {
            Seq::empty()
        },
        _ => Seq::empty(),
    }
}

// ---- the steps ---------------------------------------------------------

/// Appends an action.
fn add_action(actions: &mut Vec<DrainAction>, action: DrainAction)
    ensures
        actions_view(final(actions)@) == actions_view(old(actions)@).push(action@),
{
    actions.push(action);
    assert(actions_view(actions@) =~= actions_view(old(actions)@).push(action@));
}

/// Are the two texts the same, or both missing?
fn same_option(a: &Option<String>, b: &Option<String>) -> (r: bool)
    ensures
        r == (text_view(*a) == text_view(*b)),
{
    match (a, b) {
        (Some(x), Some(y)) => same_text(x.as_str(), y.as_str()),
        (None, None) => true,
        _ => false,
    }
}

/// Copies an optional text.
fn copy_option(a: &Option<String>) -> (r: Option<String>)
    ensures
        text_view(r) == text_view(*a),
{
    match a {
        Some(x) => Some(x.clone()),
        None => None,
    }
}

/// The start of a frame. A pane without a shell has nothing to take in.
pub open spec fn first_drain(v: SessionView) -> Drain {
    Drain {
        phase: if v.has_pty {
            DrainPhase::Receiving
        } else {
            DrainPhase::Done
        },
        consumed: 0,
        command_finished: false,
    }
}

impl PaneSession {
    /// Begins a frame. A pane without a shell has nothing to take in: it must not
    /// seem to have ended.
    pub fn begin_drain(&self) -> (r: Drain)
        ensures
            r == first_drain(self@),
    {
        Drain {
            phase: if self.has_pty {
                DrainPhase::Receiving
            } else {
                DrainPhase::Done
            },
            consumed: 0,
            command_finished: false,
        }
    }

    /// A look at the screen.
    fn look_at_screen(&mut self, alternate: bool, actions: &mut Vec<DrainAction>)
        ensures
            final(self)@ == after_screen(old(self)@, alternate),
            actions_view(final(actions)@) == actions_view(old(actions)@) + screen_actions(
                old(self)@,
                alternate,
            ),
    {
        let ghost before = actions_view(actions@);
        if alternate != self.last_alt_screen {
            add_action(actions, DrainAction::ObserveScreen { alternate, frame: self.frame });
            add_action(actions, DrainAction::RecordTransitions);
            self.last_alt_screen = alternate;
        }
        assert(actions_view(actions@) =~= before + screen_actions(old(self)@, alternate));
    }

    /// Takes in a message of the shell.
    fn take_message(
        &mut self,
        event: &LifecycleEvent,
        alternate: bool,
        has_editor: bool,
        cwd: &Option<String>,
        now_ms: i64,
    ) -> (actions: Vec<DrainAction>)
        ensures
            final(self)@ == after_message(old(self)@, event@, alternate),
            actions_view(actions@) == message_actions(
                old(self)@,
                event@,
                alternate,
                has_editor,
                text_view(*cwd),
                now_ms,
            ),
    {
        let mut actions: Vec<DrainAction> = Vec::new();
        assert(actions_view(actions@) =~= Seq::empty());
        add_action(&mut actions, DrainAction::RecordEvent);
        if let LifecycleEvent::ShellVars { names } = event {
            self.shell_var_names = Some(copy_strings(names));
        }
        if let LifecycleEvent::Completion { id, lines } = event {
            self.live.ingest_live_completion(*id, lines);
        }
        if let LifecycleEvent::Continuation = event {
            if has_editor {
                if let Some(text) = &self.last_submitted {
                    let mut restored = text.clone();
                    restored.push('\n');
                    add_action(&mut actions, DrainAction::RestoreEditor { text: restored });
                }
            }
        }
        let is_precmd = matches!(event, LifecycleEvent::Precmd { .. });
        if is_precmd || matches!(event, LifecycleEvent::Preexec { .. }) {
            self.last_submitted = None;
        }
        if is_precmd && alternate {
            add_action(&mut actions, DrainAction::LeaveAlternateScreen);
            add_action(
                &mut actions,
                DrainAction::ObserveScreen { alternate: false, frame: self.frame },
            );
            add_action(&mut actions, DrainAction::RecordTransitions);
            self.last_alt_screen = false;
        }
        let cwd_text: Option<&str> = match cwd {
            Some(s) => Some(s.as_str()),
            None => None,
        };
        let action = on_event(
            self.history,
            &mut self.capture_state,
            event,
            self.pane_id,
            cwd_text,
            now_ms,
        );
        add_action(&mut actions, DrainAction::Capture { action });
        add_action(&mut actions, DrainAction::ObserveBlocks { frame: self.frame, now_ms });
        add_action(&mut actions, DrainAction::ObserveController { frame: self.frame });
        add_action(&mut actions, DrainAction::RecordTransitions);
        assert(self@ =~= after_message(old(self)@, event@, alternate));
        assert(actions_view(actions@) =~= message_actions(
            old(self)@,
            event@,
            alternate,
            has_editor,
            text_view(*cwd),
            now_ms,
        ));
        actions
    }

    /// Takes in a report and says what is to be done about it, in order. A report
    /// that does not fit where the frame stands changes nothing.
    pub fn drain_step(&mut self, drain: &mut Drain, input: &DrainInput) -> (actions: Vec<DrainAction>)
        requires
            input@ matches InputView::Chunk { len } ==> old(self)@.bytes_received + len <= u64::MAX
                && old(drain).consumed + len <= usize::MAX,
        ensures
            fits(old(drain).phase, input@) ==> {
                &&& final(self)@ == next_session(old(self)@, input@)
                &&& *final(drain) == next_drain(*old(drain), input@)
                &&& actions_view(actions@) == drain_actions(old(self)@, *old(drain), input@)
            },
            !fits(old(drain).phase, input@) ==> {
                &&& final(self)@ == old(self)@
                &&& *final(drain) == *old(drain)
                &&& actions@.len() == 0
            },
    {
        let ghost was = self@;
        let ghost d = *drain;
        let mut actions: Vec<DrainAction> = Vec::new();
        assert(actions_view(actions@) =~= Seq::empty());
        match (drain.phase, input) {
            (DrainPhase::Receiving, DrainInput::Chunk { len }) => {
                drain.consumed = drain.consumed + *len;
                self.bytes_received = self.bytes_received + *len as u64;
                add_action(&mut actions, DrainAction::Feed);
            },
            (DrainPhase::Receiving, DrainInput::QueueEmpty) => {
                drain.phase = DrainPhase::Answering;
            },
            (DrainPhase::Receiving, DrainInput::QueueClosed) => {
                self.exited = true;
                drain.phase = DrainPhase::Answering;
            },
            (DrainPhase::Answering, DrainInput::Responses { pending, now_ms }) => {
                if *pending {
                    add_action(&mut actions, DrainAction::WriteResponses);
                }
                if self.frame < u64::MAX {
                    self.frame = self.frame + 1;
                }
                add_action(&mut actions, DrainAction::TickBootstrap { frame: self.frame });
                add_action(&mut actions, DrainAction::RecordTransitions);
                self.live.tick_live_completion_timeout(*now_ms);
                drain.phase = DrainPhase::ScreenBefore;
            },
            (DrainPhase::ScreenBefore, DrainInput::Screen { alternate }) => {
                self.look_at_screen(*alternate, &mut actions);
                drain.phase = DrainPhase::Events;
            },
            (
                DrainPhase::Events,
                DrainInput::Event { event, alternate, has_editor, cwd, now_ms },
            ) => {
                if matches!(event, LifecycleEvent::CommandFinished { .. }) {
                    drain.command_finished = true;
                }
                actions = self.take_message(event, *alternate, *has_editor, cwd, *now_ms);
            },
            (DrainPhase::Events, DrainInput::NoMoreEvents) => {
                drain.phase = DrainPhase::ScreenAfter;
            },
            (DrainPhase::ScreenAfter, DrainInput::Screen { alternate }) => {
                self.look_at_screen(*alternate, &mut actions);
                drain.phase = DrainPhase::Git;
            },
            (DrainPhase::Git, DrainInput::Directory { known }) => {
                if *known {
                    add_action(
                        &mut actions,
                        DrainAction::RequestGit { forced: drain.command_finished },
                    );
                }
                add_action(&mut actions, DrainAction::PollGit);
                drain.phase = DrainPhase::PullRequest;
            },
            (DrainPhase::PullRequest, DrainInput::Branch { cwd_known, branch }) => {
                if *cwd_known {
                    let forced = !same_option(branch, &self.last_git_branch);
                    self.last_git_branch = copy_option(branch);
                    add_action(&mut actions, DrainAction::RequestPullRequest { forced });
                }
                add_action(&mut actions, DrainAction::PollPullRequest);
                drain.phase = DrainPhase::Exit;
            },
            (DrainPhase::Exit, DrainInput::Mode { mode }) => {
                if self.exited && *mode != PaneMode::Dead {
                    add_action(&mut actions, DrainAction::RecordExit);
                    add_action(&mut actions, DrainAction::ObserveExit { frame: self.frame });
                    add_action(&mut actions, DrainAction::RecordTransitions);
                }
                drain.phase = DrainPhase::Done;
            },
            _ => {},
        }
        proof {
            if fits(d.phase, input@) {
                assert(self@ =~= next_session(was, input@));
                assert(*drain == next_drain(d, input@));
                assert(actions_view(actions@) =~= drain_actions(was, d, input@));
            }
        }
        actions
    }
}

// ---- laws --------------------------------------------------------------

/// No message is taken in before the screen was looked at: when the first one is,
/// the pane knows the screen that was reported in this frame.
pub proof fn law_screen_is_known_before_messages(v: SessionView, d: Drain, input: InputView)
    requires
        fits(d.phase, input),
        d.phase != DrainPhase::Events,
        next_drain(d, input).phase == DrainPhase::Events,
    ensures
        input matches InputView::Screen { alternate } && next_session(v, input).last_alt_screen
            == alternate,
{
}

/// After a new prompt nothing is left of what was sent before it, so that the next
/// line is sent whole, even where the start of the last command was never reported.
pub proof fn law_new_prompt_settles(v: SessionView, cwd: Seq<char>, alternate: bool)
    ensures
        after_message(v, EventView::Precmd { cwd }, alternate).last_submitted is None,
{
}

/// While the shell waits for the rest of a line, what it has is kept: any number of
/// such messages restores the same text.
pub proof fn law_waiting_keeps_the_text(v: SessionView, alternate: bool)
    ensures
        after_message(v, EventView::Continuation, alternate) == v,
        restored_text(v, EventView::Continuation, true) == (match v.last_submitted {
            Some(text) => Some(text.push('\n')),
            None => None,
        }),
{
}

/// A stale alternate screen is left, and the mode machine told so, before it sees
/// the new prompt; and the pane knows that the screen is off.
pub proof fn law_stale_screen_is_left_first(
    v: SessionView,
    cwd: Seq<char>,
    has_editor: bool,
    dir: Option<Seq<char>>,
    now_ms: i64,
)
    ensures
        ({
            let event = EventView::Precmd { cwd };
            let actions = message_actions(v, event, true, has_editor, dir, now_ms);
            &&& actions[1] == DoView::LeaveAlternateScreen
            &&& actions[2] == (DoView::ObserveScreen { alternate: false, frame: v.frame })
            &&& actions[actions.len() - 2] == (DoView::ObserveController { frame: v.frame })
            &&& actions.len() == 8
            &&& !after_message(v, event, true).last_alt_screen
        }),
{
}

/// Every message reaches the history, the blocks and the mode machine, in this
/// order, whatever it says.
pub proof fn law_every_message_is_handed_on(
    v: SessionView,
    event: EventView,
    alternate: bool,
    has_editor: bool,
    cwd: Option<Seq<char>>,
    now_ms: i64,
)
    ensures
        ({
            let actions = message_actions(v, event, alternate, has_editor, cwd, now_ms);
            let n = actions.len();
            &&& n >= 5
            &&& actions[n - 4] is Capture
            &&& actions[n - 3] == (DoView::ObserveBlocks { frame: v.frame, now_ms })
            &&& actions[n - 2] == (DoView::ObserveController { frame: v.frame })
            &&& actions[n - 1] is RecordTransitions
        }),
{
}

/// A shell that has ended stays so.
pub proof fn law_end_of_shell_is_final(v: SessionView, input: InputView)
    requires
        v.exited,
    ensures
        next_session(v, input).exited,
{
}

/// A step keeps a pane sound.
pub proof fn law_steps_keep_a_pane_sound(v: SessionView, input: InputView)
    requires
        v.wf(),
        v.has_pty,
    ensures
        next_session(v, input).wf(),
        next_session(v, input).has_pty,
{
}

/// How many steps a frame has left at most, once its bytes and messages are in.
pub open spec fn steps_left(phase: DrainPhase) -> nat {
    match phase {
        DrainPhase::Receiving => 8,
        DrainPhase::Answering => 7,
        DrainPhase::ScreenBefore => 6,
        DrainPhase::Events => 5,
        DrainPhase::ScreenAfter => 4,
        DrainPhase::Git => 3,
        DrainPhase::PullRequest => 2,
        DrainPhase::Exit => 1,
        DrainPhase::Done => 0,
    }
}

/// A frame never goes back, and every report but bytes and messages takes it on.
pub proof fn law_frames_go_forward(d: Drain, input: InputView)
    requires
        fits(d.phase, input),
    ensures
        steps_left(next_drain(d, input).phase) <= steps_left(d.phase),
        !(input is Chunk) && !(input is Event) ==> steps_left(next_drain(d, input).phase)
            == steps_left(d.phase) - 1,
{
}

/// A pane and its frame after some reports.
pub open spec fn run(v: SessionView, d: Drain, inputs: Seq<InputView>) -> (SessionView, Drain)
    decreases inputs.len(),
{
    if inputs.len() == 0 {
        (v, d)
    } else {
        let (w, e) = run(v, d, inputs.drop_last());
        if fits(e.phase, inputs.last()) {
            (next_session(w, inputs.last()), next_drain(e, inputs.last()))
        } else {
            (w, e)
        }
    }
}

/// A pane without a shell never ends, whatever is reported in its frame: it stays as
/// it was brought back.
pub proof fn law_pane_without_shell_takes_nothing_in(v: SessionView, inputs: Seq<InputView>)
    requires
        !v.has_pty,
    ensures
        run(v, first_drain(v), inputs) == (v, first_drain(v)),
    decreases inputs.len(),
{
    if inputs.len() > 0 {
        law_pane_without_shell_takes_nothing_in(v, inputs.drop_last());
    }
}

/// All the bytes that some reports speak of.
pub open spec fn bytes_reported(inputs: Seq<InputView>) -> nat
    decreases inputs.len(),
{
    if inputs.len() == 0 {
        0
    } else {
        bytes_reported(inputs.drop_last()) + (match inputs.last() {
            InputView::Chunk { len } => len as nat,
            _ => 0nat,
        })
    }
}

/// What a frame took in is what the pane received in it.
pub proof fn law_bytes_are_counted(v: SessionView, inputs: Seq<InputView>)
    requires
        v.bytes_received + bytes_reported(inputs) <= u64::MAX,
        bytes_reported(inputs) <= usize::MAX,
    ensures
        ({
            let (w, d) = run(v, first_drain(v), inputs);
            w.bytes_received == v.bytes_received + d.consumed && d.consumed <= bytes_reported(inputs)
        }),
    decreases inputs.len(),
{
    if inputs.len() > 0 {
        law_bytes_are_counted(v, inputs.drop_last());
    }
}

/// Has the frame passed the point where frames are counted?
pub open spec fn counted(phase: DrainPhase) -> bool {
    steps_left(phase) <= steps_left(DrainPhase::ScreenBefore)
}

/// A frame is counted once.
pub proof fn law_frame_is_counted_once(v: SessionView, inputs: Seq<InputView>)
    requires
        v.has_pty,
    ensures
        ({
            let (w, d) = run(v, first_drain(v), inputs);
            w.frame == (if counted(d.phase) {
                next_frame(v.frame)
            } else {
                v.frame
            })
        }),
    decreases inputs.len(),
{
    if inputs.len() > 0 {
        law_frame_is_counted_once(v, inputs.drop_last());
    }
}

/// A whole frame keeps a pane sound, and a shell that has ended stays so.
pub proof fn law_frames_keep_a_pane_sound(v: SessionView, inputs: Seq<InputView>)
    requires
        v.wf(),
    ensures
        ({
            let w = run(v, first_drain(v), inputs).0;
            w.wf() && w.has_pty == v.has_pty && (v.exited ==> w.exited)
        }),
    decreases inputs.len(),
{
    if inputs.len() > 0 {
        law_frames_keep_a_pane_sound(v, inputs.drop_last());
        if !v.has_pty {
            law_pane_without_shell_takes_nothing_in(v, inputs);
        }
    }
}

/// The mode after some actions.
pub open spec fn mode_after_all(mode: PaneMode, actions: Seq<DoView>) -> PaneMode
    decreases actions.len(),
{
    if actions.len() == 0 {
        mode
    } else {
        mode_told(mode_after_all(mode, actions.drop_last()), actions.last())
    }
}

/// Does every report fit where the frame stands when it comes?
pub open spec fn all_fit(v: SessionView, d: Drain, inputs: Seq<InputView>) -> bool
    decreases inputs.len(),
{
    inputs.len() == 0 || (all_fit(v, d, inputs.drop_last()) && fits(
        run(v, d, inputs.drop_last()).1.phase,
        inputs.last(),
    ))
}

/// Is the end of the shell among the reports?
pub open spec fn end_reported(inputs: Seq<InputView>) -> bool {
    exists|i: int| 0 <= i < inputs.len() && (#[trigger] inputs[i]) is QueueClosed
}

/// The end of a shell is known in a frame where it was known before or was reported
/// in it, and in no other.
proof fn lemma_exit_in_frame(v: SessionView, inputs: Seq<InputView>)
    requires
        v.has_pty,
        all_fit(v, first_drain(v), inputs),
    ensures
        run(v, first_drain(v), inputs).0.exited == (v.exited || end_reported(inputs)),
    decreases inputs.len(),
{
    if inputs.len() > 0 {
        let some = inputs.drop_last();
        lemma_exit_in_frame(v, some);
        if end_reported(some) {
            let i = choose|i: int| 0 <= i < some.len() && (#[trigger] some[i]) is QueueClosed;
            assert(inputs[i] is QueueClosed);
        }
        if inputs.last() is QueueClosed {
            assert(inputs[inputs.len() - 1] is QueueClosed);
        } else if end_reported(inputs) {
            let i = choose|i: int| 0 <= i < inputs.len() && (#[trigger] inputs[i]) is QueueClosed;
            assert(some[i] is QueueClosed);
        }
    }
}

/// A frame takes in all the bytes that are reported in it.
proof fn lemma_bytes_in_frame(v: SessionView, inputs: Seq<InputView>)
    requires
        v.bytes_received + bytes_reported(inputs) <= u64::MAX,
        bytes_reported(inputs) <= usize::MAX,
        all_fit(v, first_drain(v), inputs),
    ensures
        ({
            let (w, d) = run(v, first_drain(v), inputs);
            d.consumed == bytes_reported(inputs) && w.bytes_received == v.bytes_received
                + bytes_reported(inputs)
        }),
    decreases inputs.len(),
{
    if inputs.len() > 0 {
        lemma_bytes_in_frame(v, inputs.drop_last());
    }
}

/// A whole frame of a pane with a shell, from its beginning to its end: the bytes
/// received grow by exactly what the frame took in, which is what was reported in it
/// (nothing, where nothing was); the end of the shell, once known, stays known, and
/// becomes known only where it is reported; and where it is known, the pane is dead
/// when the frame is over.
pub proof fn law_whole_frame(v: SessionView, inputs: Seq<InputView>)
    requires
        v.has_pty,
        v.bytes_received + bytes_reported(inputs) <= u64::MAX,
        bytes_reported(inputs) <= usize::MAX,
        all_fit(v, first_drain(v), inputs),
        run(v, first_drain(v), inputs).1.phase == DrainPhase::Done,
    ensures
        ({
            let (w, d) = run(v, first_drain(v), inputs);
            let (before, at_exit) = run(v, first_drain(v), inputs.drop_last());
            &&& d.consumed == bytes_reported(inputs)
            &&& w.bytes_received == v.bytes_received + d.consumed
            &&& w.exited == (v.exited || end_reported(inputs))
            &&& inputs.len() > 0
            &&& inputs.last() matches InputView::Mode { mode } && (w.exited ==> mode_after_all(
                mode,
                drain_actions(before, at_exit, inputs.last()),
            ) == PaneMode::Dead)
        }),
{
    lemma_bytes_in_frame(v, inputs);
    lemma_exit_in_frame(v, inputs);
    assert(inputs.len() > 0);
    let (w, d) = run(v, first_drain(v), inputs.drop_last());
    assert(fits(d.phase, inputs.last()));
    assert(inputs.last() is Mode);
    if w.exited {
        let mode = inputs.last()->mode;
        let actions = drain_actions(w, d, inputs.last());
        if mode != PaneMode::Dead {
            assert(actions.drop_last().last() is ObserveExit);
            assert(mode_after_all(mode, actions.drop_last()) == PaneMode::Dead);
        }
    }
}

/// An answer of the shell reaches whoever asked: after a message with the number of
/// the request that waits, exactly its lines wait to be taken, in order, under the
/// tool that asked, and the request waits no longer. An answer with any other number
/// changes nothing.
pub proof fn law_answer_reaches_who_asked(
    v: SessionView,
    id: u64,
    lines: Seq<Seq<char>>,
    alternate: bool,
    has_editor: bool,
    cwd: Option<Seq<char>>,
    now_ms: i64,
)
    ensures
        ({
            let event = EventView::Completion { id, lines };
            let w = next_session(v, InputView::Event { event, alternate, has_editor, cwd, now_ms });
            &&& v.live.in_flight is Some && v.live.in_flight.unwrap().id == id ==> {
                &&& w.live.response is Some
                &&& w.live.response.unwrap().lines == lines
                &&& w.live.response.unwrap().tool == v.live.in_flight.unwrap().tool
                &&& w.live.in_flight is None
                &&& w.live.next_id == v.live.next_id
            }
            &&& v.live.in_flight is None || v.live.in_flight.unwrap().id != id ==> w == v
            &&& w == (SessionView { live: w.live, ..v })
        }),
{
    let event = EventView::Completion { id, lines };
    let w = next_session(v, InputView::Event { event, alternate, has_editor, cwd, now_ms });
    assert(w =~= (SessionView { live: w.live, ..v }));
}

/// What each message but an answer changes of the pane, and nothing else: the names
/// of variables are kept; a command that starts, and a new prompt, clear what was
/// sent; a new prompt ends a stale screen; and the end of a command ends its record.
pub proof fn law_messages_change_what_they_name(
    v: SessionView,
    event: EventView,
    alternate: bool,
    has_editor: bool,
    cwd: Option<Seq<char>>,
    now_ms: i64,
)
    requires
        !(event is Completion),
    ensures
        ({
            let w = next_session(v, InputView::Event { event, alternate, has_editor, cwd, now_ms });
            match event {
                EventView::ShellVars { names } => w == (SessionView {
                    shell_var_names: Some(names),
                    ..v
                }),
                EventView::Preexec { .. } => w == (SessionView { last_submitted: None, ..v }),
                EventView::Precmd { .. } => w == (SessionView {
                    last_submitted: None,
                    last_alt_screen: v.last_alt_screen && !alternate,
                    ..v
                }),
                EventView::CommandFinished { .. } => {
                    &&& w == (SessionView { capture_state: w.capture_state, ..v })
                    &&& v.history ==> w.capture_state.current_run_id is None
                    &&& !v.history ==> w == v
                },
                _ => w == v,
            }
        }),
{
    let w = next_session(v, InputView::Event { event, alternate, has_editor, cwd, now_ms });
    match event {
        EventView::ShellVars { names } => {
            assert(w =~= (SessionView { shell_var_names: Some(names), ..v }));
        },
        EventView::Preexec { .. } => {
            assert(w =~= (SessionView { last_submitted: None, ..v }));
        },
        EventView::Precmd { .. } => {
            assert(w =~= (SessionView {
                last_submitted: None,
                last_alt_screen: v.last_alt_screen && !alternate,
                ..v
            }));
        },
        _ => {
            assert(w =~= (SessionView { capture_state: w.capture_state, ..v }));
        },
    }
}

/// What each message has done, action by action. All are recorded first and then go
/// to the history, the blocks and the mode machine. Between these stand what puts the
/// last line back into the editor, where the shell waits for more of it, and what
/// leaves a screen that a new prompt finds on.
pub proof fn law_actions_of_a_message(
    v: SessionView,
    event: EventView,
    alternate: bool,
    has_editor: bool,
    cwd: Option<Seq<char>>,
    now_ms: i64,
    d: Drain,
)
    ensures
        ({
            let actions = drain_actions(
                v,
                d,
                InputView::Event { event, alternate, has_editor, cwd, now_ms },
            );
            let n = actions.len();
            let capture = actions[n - 4]->Capture_action;
            &&& actions[0] is RecordEvent
            &&& actions[n - 4] is Capture
            &&& actions[n - 3] == (DoView::ObserveBlocks { frame: v.frame, now_ms })
            &&& actions[n - 2] == (DoView::ObserveController { frame: v.frame })
            &&& actions[n - 1] is RecordTransitions
            &&& if event is Continuation && has_editor && v.last_submitted is Some {
                n == 6 && actions[1] == (DoView::RestoreEditor {
                    text: v.last_submitted.unwrap() + seq!['\n'],
                })
            } else if event is Precmd && alternate {
                n == 8 && actions[1] is LeaveAlternateScreen && actions[2] == (
                DoView::ObserveScreen { alternate: false, frame: v.frame })
                    && actions[3] is RecordTransitions
            } else {
                n == 5
            }
            &&& match event {
                EventView::Preexec { command } => if v.history {
                    capture matches ActionView::RecordSubmit {
                        text,
                        cwd: dir,
                        pane_id,
                        started_at_ms,
                    } && text == command && dir == cwd && started_at_ms == now_ms && (v.pane_id
                        <= i64::MAX ==> pane_id == v.pane_id)
                } else {
                    capture is Nothing
                },
                EventView::CommandFinished { exit } => if v.history
                    && v.capture_state.current_run_id is Some {
                    capture == (ActionView::RecordFinish {
                        id: v.capture_state.current_run_id.unwrap(),
                        finished_at_ms: now_ms,
                        exit_code: exit,
                    })
                } else {
                    capture is Nothing
                },
                _ => capture is Nothing,
            }
        }),
{
    if let Some(text) = v.last_submitted {
        assert(text.push('\n') =~= text + seq!['\n']);
    }
}

/// What the reports of a frame other than messages have done, and what they change:
/// bytes are fed and counted; the terminal's answer is written where there is one,
/// the frame is counted and an overdue request answered; a screen that changed is
/// told; the repository is asked for where the directory is known, anew after a
/// command ended; the pull request too, anew where the branch changed; and the end of
/// the shell is told once.
pub proof fn law_reports_of_a_frame(v: SessionView, d: Drain, input: InputView)
    requires
        !(input is Event),
    ensures
        ({
            let a = drain_actions(v, d, input);
            let w = next_session(v, input);
            match input {
                InputView::Chunk { len } => {
                    &&& a == seq![DoView::Feed]
                    &&& w == (SessionView { bytes_received: w.bytes_received, ..v })
                    &&& v.bytes_received + len <= u64::MAX ==> w.bytes_received == v.bytes_received
                        + len
                },
                InputView::QueueEmpty => a.len() == 0 && w == v,
                InputView::QueueClosed => a.len() == 0 && w == (SessionView { exited: true, ..v }),
                InputView::Responses { pending, now_ms } => {
                    let n = a.len();
                    &&& n == (if pending {
                        3nat
                    } else {
                        2nat
                    })
                    &&& pending ==> a[0] is WriteResponses
                    &&& a[n - 2] == (DoView::TickBootstrap { frame: w.frame })
                    &&& a[n - 1] is RecordTransitions
                    &&& v.frame < u64::MAX ==> w.frame == v.frame + 1
                    &&& v.frame == u64::MAX ==> w.frame == v.frame
                    &&& w == (SessionView { frame: w.frame, live: w.live, ..v })
                    &&& w.live.next_id == v.live.next_id
                    &&& match v.live.in_flight {
                        Some(f) => if now_ms - f.sent_ms >= 600 {
                            w.live.in_flight is None && w.live.response is Some
                                && w.live.response.unwrap().tool == f.tool
                                && w.live.response.unwrap().lines.len() == 0
                        } else {
                            w.live == v.live
                        },
                        None => w.live == v.live,
                    }
                },
                InputView::Screen { alternate } => {
                    &&& w == (SessionView { last_alt_screen: alternate, ..v })
                    &&& if alternate == v.last_alt_screen {
                        a.len() == 0
                    } else {
                        a == seq![
                            DoView::ObserveScreen { alternate, frame: v.frame },
                            DoView::RecordTransitions,
                        ]
                    }
                },
                InputView::NoMoreEvents => a.len() == 0 && w == v,
                InputView::Directory { known } => {
                    &&& w == v
                    &&& a.last() is PollGit
                    &&& a.len() == (if known {
                        2nat
                    } else {
                        1nat
                    })
                    &&& known ==> a[0] == (DoView::RequestGit { forced: d.command_finished })
                },
                InputView::Branch { cwd_known, branch } => {
                    &&& a.last() is PollPullRequest
                    &&& a.len() == (if cwd_known {
                        2nat
                    } else {
                        1nat
                    })
                    &&& cwd_known ==> a[0] == (DoView::RequestPullRequest {
                        forced: v.last_git_branch != branch,
                    })
                    &&& cwd_known ==> w == (SessionView { last_git_branch: branch, ..v })
                    &&& !cwd_known ==> w == v
                },
                InputView::Mode { mode } => {
                    &&& w == v
                    &&& if v.exited && mode != PaneMode::Dead {
                        a == seq![
                            DoView::RecordExit,
                            DoView::ObserveExit { frame: v.frame },
                            DoView::RecordTransitions,
                        ]
                    } else {
                        a.len() == 0
                    }
                },
                InputView::Event { .. } => true,
            }
        }),
{
}

/// A frame goes through its phases in one order, and knows of a command that ended in
/// it from the message on.
pub proof fn law_phases_in_order(d: Drain, input: InputView)
    requires
        fits(d.phase, input),
    ensures
        ({
            let e = next_drain(d, input);
            &&& match input {
                InputView::Chunk { len } => d.phase == DrainPhase::Receiving && e.phase
                    == DrainPhase::Receiving && (d.consumed + len <= usize::MAX ==> e.consumed
                    == d.consumed + len),
                InputView::QueueEmpty => d.phase == DrainPhase::Receiving && e.phase
                    == DrainPhase::Answering,
                InputView::QueueClosed => d.phase == DrainPhase::Receiving && e.phase
                    == DrainPhase::Answering,
                InputView::Responses { .. } => d.phase == DrainPhase::Answering && e.phase
                    == DrainPhase::ScreenBefore,
                InputView::Screen { .. } => (d.phase == DrainPhase::ScreenBefore && e.phase
                    == DrainPhase::Events) || (d.phase == DrainPhase::ScreenAfter && e.phase
                    == DrainPhase::Git),
                InputView::Event { .. } => d.phase == DrainPhase::Events && e.phase
                    == DrainPhase::Events,
                InputView::NoMoreEvents => d.phase == DrainPhase::Events && e.phase
                    == DrainPhase::ScreenAfter,
                InputView::Directory { .. } => d.phase == DrainPhase::Git && e.phase
                    == DrainPhase::PullRequest,
                InputView::Branch { .. } => d.phase == DrainPhase::PullRequest && e.phase
                    == DrainPhase::Exit,
                InputView::Mode { .. } => d.phase == DrainPhase::Exit && e.phase == DrainPhase::Done,
            }
            &&& !(input is Chunk) ==> e.consumed == d.consumed
            &&& e.command_finished == (d.command_finished || (input matches InputView::Event {
                event,
                ..
            } && event is CommandFinished))
        }),
{
}

/// A frame is never stuck: wherever it stands, each report that can come there is
/// taken in, and a frame that is over takes in none.
pub proof fn law_frames_take_what_comes(
    len: usize,
    pending: bool,
    now_ms: i64,
    alternate: bool,
    event: EventView,
    has_editor: bool,
    cwd: Option<Seq<char>>,
    branch: Option<Seq<char>>,
    mode: PaneMode,
    input: InputView,
)
    ensures
        fits(DrainPhase::Receiving, InputView::Chunk { len }),
        fits(DrainPhase::Receiving, InputView::QueueEmpty),
        fits(DrainPhase::Receiving, InputView::QueueClosed),
        fits(DrainPhase::Answering, InputView::Responses { pending, now_ms }),
        fits(DrainPhase::ScreenBefore, InputView::Screen { alternate }),
        fits(
            DrainPhase::Events,
            InputView::Event { event, alternate, has_editor, cwd, now_ms },
        ),
        fits(DrainPhase::Events, InputView::NoMoreEvents),
        fits(DrainPhase::ScreenAfter, InputView::Screen { alternate }),
        fits(DrainPhase::Git, InputView::Directory { known: alternate }),
        fits(DrainPhase::PullRequest, InputView::Branch { cwd_known: pending, branch }),
        fits(DrainPhase::Exit, InputView::Mode { mode }),
        !fits(DrainPhase::Done, input),
{
}

/// A frame begins with the bytes of the shell, with none taken in, where there is a
/// shell; where there is none, it is over at once.
pub proof fn law_frame_begins_afresh(v: SessionView)
    ensures
        first_drain(v).consumed == 0,
        !first_drain(v).command_finished,
        v.has_pty ==> first_drain(v).phase == DrainPhase::Receiving,
        !v.has_pty ==> first_drain(v).phase == DrainPhase::Done,
{
}

/// Only the end of the shell makes a pane dead; no other action changes its mode by
/// itself.
pub proof fn law_only_the_end_kills(mode: PaneMode, action: DoView)
    ensures
        action is ObserveExit ==> mode_told(mode, action) == PaneMode::Dead,
        !(action is ObserveExit) ==> mode_told(mode, action) == mode,
{
}

/// What is reported, and what is to be done, is what the fields say.
pub proof fn law_reports_and_actions_are_what_they_say(i: DrainInput, a: DrainAction)
    ensures
        match i {
            DrainInput::Chunk { len } => i@ == (InputView::Chunk { len }),
            DrainInput::QueueEmpty => i@ is QueueEmpty,
            DrainInput::QueueClosed => i@ is QueueClosed,
            DrainInput::Responses { pending, now_ms } => i@ == (InputView::Responses {
                pending,
                now_ms,
            }),
            DrainInput::Screen { alternate } => i@ == (InputView::Screen { alternate }),
            DrainInput::Event { event, alternate, has_editor, cwd, now_ms } => i@ is Event
                && i@->event == event@ && i@->Event_alternate == alternate && i@->has_editor
                == has_editor && i@->Event_now_ms == now_ms && (match cwd {
                Some(c) => i@->cwd == Some(c@),
                None => i@->cwd is None,
            }),
            DrainInput::NoMoreEvents => i@ is NoMoreEvents,
            DrainInput::Directory { known } => i@ == (InputView::Directory { known }),
            DrainInput::Branch { cwd_known, branch } => i@ is Branch && i@->cwd_known == cwd_known
                && (match branch {
                Some(b) => i@->branch == Some(b@),
                None => i@->branch is None,
            }),
            DrainInput::Mode { mode } => i@ == (InputView::Mode { mode }),
        },
        match a {
            DrainAction::Feed => a@ is Feed,
            DrainAction::WriteResponses => a@ is WriteResponses,
            DrainAction::TickBootstrap { frame } => a@ == (DoView::TickBootstrap { frame }),
            DrainAction::RecordTransitions => a@ is RecordTransitions,
            DrainAction::ObserveScreen { alternate, frame } => a@ == (DoView::ObserveScreen {
                alternate,
                frame,
            }),
            DrainAction::RecordEvent => a@ is RecordEvent,
            DrainAction::RestoreEditor { text } => a@ is RestoreEditor && a@->text == text@,
            DrainAction::LeaveAlternateScreen => a@ is LeaveAlternateScreen,
            DrainAction::Capture { action } => a@ is Capture && a@->action == action@,
            DrainAction::ObserveBlocks { frame, now_ms } => a@ == (DoView::ObserveBlocks {
                frame,
                now_ms,
            }),
            DrainAction::ObserveController { frame } => a@ == (DoView::ObserveController { frame }),
            DrainAction::RequestGit { forced } => a@ == (DoView::RequestGit { forced }),
            DrainAction::PollGit => a@ is PollGit,
            DrainAction::RequestPullRequest { forced } => a@ == (DoView::RequestPullRequest {
                forced,
            }),
            DrainAction::PollPullRequest => a@ is PollPullRequest,
            DrainAction::RecordExit => a@ is RecordExit,
            DrainAction::ObserveExit { frame } => a@ == (DoView::ObserveExit { frame }),
        },
{
}

} // verus!
