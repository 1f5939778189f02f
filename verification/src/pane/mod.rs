//! A pane: a shell and what is known of it.
//!
//! The shell, the terminal, the prompt editor and the stores are worked by the
//! caller. What a pane decides stands here: [`PaneSession`] takes in what the
//! caller reports and says what is to be done about it.

use crate::history::capture::{after_submitted, CaptureState};
use crate::history::recall::{OutcomeView, RecallOutcome, RecallState, RecallView};
use crate::integration::{spawn_view, ManagedSpawn, ShellSpec};
use crate::json::strings_view;
use crate::links::Point;
use crate::osc::text_view;
use crate::pane::completion::{no_requests, LiveCompletions, LiveView};
use crate::pane_selection::{PaneCursor, PaneSelection};
use vstd::prelude::*;

pub mod completion;
pub mod drain;
pub mod framing;
pub mod sealed;
pub mod submit;

verus! {

/// What a pane is doing.
#[derive(Debug, Clone, Copy, PartialEq, Eq, Structural)]
pub enum PaneMode {
    /// The shell runs its start-up script; the pane shows nothing.
    Bootstrapping,
    /// The shell's integration did not answer.
    Degraded,
    /// Input goes to the program.
    RawTerminal,
    /// A full-screen program owns the pane.
    AlternateScreen,
    /// The prompt editor takes the input.
    ShellPromptEditor,
    /// There is no shell.
    Dead,
}

/// What is shown of a pane.
#[derive(Debug, Clone, PartialEq, Eq)]
pub struct PaneView {
    /// How many bytes came from the shell.
    pub bytes_received: u64,
    pub alt_screen: bool,
    pub rows: u16,
    pub cols: u16,
    /// The working directory, where it is known.
    pub cwd: Option<String>,
    /// The text on the screen.
    pub screen_text: String,
    pub mode: Option<PaneMode>,
    /// Is the pane still hidden?
    pub is_bootstrapping: bool,
}

impl Default for PaneView {
    fn default() -> (r: PaneView)
        ensures
            r.bytes_received == 0,
            !r.alt_screen,
            r.rows == 0,
            r.cols == 0,
            r.cwd is None,
            r.screen_text@ == Seq::<char>::empty(),
            r.mode is None,
            !r.is_bootstrapping,
    {
        PaneView {
            bytes_received: 0,
            alt_screen: false,
            rows: 0,
            cols: 0,
            cwd: None,
            screen_text: String::new(),
            mode: None,
            is_bootstrapping: false,
        }
    }
}

/// What the mouse selects by.
#[derive(Debug, Clone, Copy, PartialEq, Eq, Structural)]
pub enum SelectionMode {
    Char,
    Word,
    Line,
}

/// A selection on the live screen.
#[derive(Debug, Clone, Copy, PartialEq, Eq, Structural)]
pub struct Selection {
    pub anchor: Point,
    pub head: Point,
    pub mode: SelectionMode,
    /// Does the anchor stand for a whole link?
    pub on_link: bool,
}

/// The state of a pane.
#[derive(Debug)]
pub struct PaneSession {
    pub pane_id: u64,
    pub session_id: String,
    pub shell: ShellSpec,
    /// Is there a shell? A pane that was restored has none.
    pub has_pty: bool,
    /// Has the shell ended?
    pub exited: bool,
    pub bytes_received: u64,
    /// How many frames the pane has seen.
    pub frame: u64,
    pub last_alt_screen: bool,
    /// When the last change of mode was that has been recorded.
    pub last_transition_at: u64,
    /// The command that was sent last and has not started yet.
    pub last_submitted: Option<String>,
    pub selection: Option<Selection>,
    pub pane_selection: Option<PaneSelection>,
    /// Are commands recorded?
    pub history: bool,
    pub capture_state: CaptureState,
    pub recall: RecallState,
    pub last_git_branch: Option<String>,
    /// The variables that the shell has reported, once it has.
    pub shell_var_names: Option<Vec<String>>,
    pub live: LiveCompletions,
    pub persist_pane_row: Option<i64>,
    pub persist_session: Option<i64>,
}

/// The state of a pane, as mathematics.
#[verifier::ext_equal]
pub struct SessionView {
    pub pane_id: u64,
    pub session_id: Seq<char>,
    pub shell: ShellSpec,
    pub has_pty: bool,
    pub exited: bool,
    pub bytes_received: u64,
    pub frame: u64,
    pub last_alt_screen: bool,
    pub last_transition_at: u64,
    pub last_submitted: Option<Seq<char>>,
    pub selection: Option<Selection>,
    pub pane_selection: Option<PaneSelection>,
    pub history: bool,
    pub capture_state: CaptureState,
    pub recall: RecallView,
    pub last_git_branch: Option<Seq<char>>,
    pub shell_var_names: Option<Seq<Seq<char>>>,
    pub live: LiveView,
    pub persist_pane_row: Option<i64>,
    pub persist_session: Option<i64>,
}

/// The view of optional names.
pub open spec fn names_view(names: Option<Vec<String>>) -> Option<Seq<Seq<char>>> {
    match names {
        Some(v) => Some(strings_view(v@)),
        None => None,
    }
}

impl View for PaneSession {
    type V = SessionView;

    open spec fn view(&self) -> SessionView {
        SessionView {
            pane_id: self.pane_id,
            session_id: self.session_id@,
            shell: self.shell,
            has_pty: self.has_pty,
            exited: self.exited,
            bytes_received: self.bytes_received,
            frame: self.frame,
            last_alt_screen: self.last_alt_screen,
            last_transition_at: self.last_transition_at,
            last_submitted: text_view(self.last_submitted),
            selection: self.selection,
            pane_selection: self.pane_selection,
            history: self.history,
            capture_state: self.capture_state,
            recall: self.recall@,
            last_git_branch: text_view(self.last_git_branch),
            shell_var_names: names_view(self.shell_var_names),
            live: self.live@,
            persist_pane_row: self.persist_pane_row,
            persist_session: self.persist_session,
        }
    }
}

impl SessionView {
    /// A pane shows at most one selection, a shell that ended was there, and a
    /// walk through the history is sound.
    pub open spec fn wf(self) -> bool {
        &&& !(self.selection is Some && self.pane_selection is Some)
        &&& self.exited ==> self.has_pty
        &&& self.recall.wf()
    }
}

// ---- starting ----------------------------------------------------------

/// A pane just after its shell was started.
pub open spec fn fresh_session(session_id: Seq<char>, pane_id: u64) -> SessionView {
    SessionView {
        pane_id,
        session_id,
        shell: ShellSpec::Zsh,
        has_pty: true,
        exited: false,
        bytes_received: 0,
        frame: 0,
        last_alt_screen: false,
        last_transition_at: 0,
        last_submitted: None,
        selection: None,
        pane_selection: None,
        history: false,
        capture_state: (CaptureState { current_run_id: None }),
        recall: RecallView::idle(),
        last_git_branch: None,
        shell_var_names: None,
        live: no_requests(),
        persist_pane_row: None,
        persist_session: None,
    }
}

/// How a pane comes to be.
#[derive(Debug, Clone, Copy, PartialEq, Eq, Structural)]
pub enum Origin {
    /// With a bare shell.
    Bare,
    /// With a shell that starts up under integration.
    Managed,
    /// From its stored transcript, without a shell.
    Restored,
}

/// The mode in which a pane starts.
pub fn start_mode(origin: Origin) -> (r: PaneMode)
    ensures
        r == (match origin {
            Origin::Bare => PaneMode::RawTerminal,
            Origin::Managed => PaneMode::Bootstrapping,
            Origin::Restored => PaneMode::Dead,
        }),
{
    match origin {
        Origin::Bare => PaneMode::RawTerminal,
        Origin::Managed => PaneMode::Bootstrapping,
        Origin::Restored => PaneMode::Dead,
    }
}

/// What a shell is started with.
#[derive(Debug, Clone)]
pub struct PtyConfig {
    pub program: String,
    pub args: Vec<String>,
    pub env: Vec<(String, String)>,
    pub cwd: Option<String>,
    pub rows: u16,
    pub cols: u16,
}

/// What a plan starts: its first argument is the program.
pub fn pty_config(plan: ManagedSpawn, cwd: Option<String>, rows: u16, cols: u16) -> (r: PtyConfig)
    requires
        plan.argv@.len() > 0,
    ensures
        r.program@ == spawn_view(plan).argv[0],
        strings_view(r.args@) == spawn_view(plan).argv.skip(1),
        r.env == plan.env,
        r.cwd == cwd,
        r.rows == rows,
        r.cols == cols,
{
    let mut args = plan.argv;
    let ghost argv = args@;
    let program = args.remove(0);
    assert(strings_view(args@) =~= strings_view(argv).skip(1));
    PtyConfig { program, args, env: plan.env, cwd, rows, cols }
}

/// How a pane's store is opened.
#[derive(Debug, Clone, Copy, PartialEq, Eq, Structural)]
pub enum StoreStart {
    /// Not at all.
    Off,
    /// With a new pane.
    Begin,
    /// With a pane that was there before, so that its chunks go on.
    Resume(i64),
}

/// Decides how a pane's store is opened.
pub fn store_start(persistent: bool, resume_pane_row: Option<i64>) -> (r: StoreStart)
    ensures
        r == (if !persistent {
            StoreStart::Off
        } else {
            match resume_pane_row {
                Some(row) => StoreStart::Resume(row),
                None => StoreStart::Begin,
            }
        }),
{
    if !persistent {
        return StoreStart::Off;
    }
    match resume_pane_row {
        Some(row) => StoreStart::Resume(row),
        None => StoreStart::Begin,
    }
}

impl PaneSession {
    /// A pane whose shell was started.
    pub fn spawn(session_id: String, pane_id: u64) -> (r: PaneSession)
        ensures
            r@ == fresh_session(session_id@, pane_id),
            r@.wf(),
    {
        PaneSession {
            pane_id,
            session_id,
            shell: ShellSpec::Zsh,
            has_pty: true,
            exited: false,
            bytes_received: 0,
            frame: 0,
            last_alt_screen: false,
            last_transition_at: 0,
            last_submitted: None,
            selection: None,
            pane_selection: None,
            history: false,
            capture_state: CaptureState::default(),
            recall: RecallState::default(),
            last_git_branch: None,
            shell_var_names: None,
            live: LiveCompletions::default(),
            persist_pane_row: None,
            persist_session: None,
        }
    }

    /// A pane whose shell was started under integration: `rows` are those of
    /// its pane and session in the store, where it has one.
    pub fn spawn_managed(
        session_id: String,
        pane_id: u64,
        shell: ShellSpec,
        history: bool,
        rows: Option<(i64, i64)>,
    ) -> (r: PaneSession)
        ensures
            r@ == (SessionView {
                shell,
                history,
                persist_pane_row: match rows {
                    Some(p) => Some(p.0),
                    None => None,
                },
                persist_session: match rows {
                    Some(p) => Some(p.1),
                    None => None,
                },
                ..fresh_session(session_id@, pane_id)
            }),
            r@.wf(),
    {
        let mut session = PaneSession::spawn(session_id, pane_id);
        session.shell = shell;
        session.history = history;
        if let Some((pane_row, session_row)) = rows {
            session.persist_pane_row = Some(pane_row);
            session.persist_session = Some(session_row);
        }
        session
    }

    /// A pane brought back without a shell. Its row in the store is kept.
    pub fn restored(pane_id: u64, pane_row_id: i64) -> (r: PaneSession)
        ensures
            r@ == (SessionView {
                has_pty: false,
                persist_pane_row: Some(pane_row_id),
                ..fresh_session(Seq::empty(), pane_id)
            }),
            r@.wf(),
    {
        let mut session = PaneSession::spawn(String::new(), pane_id);
        session.has_pty = false;
        session.persist_pane_row = Some(pane_row_id);
        session
    }

    /// Has the shell ended? Once true, it stays true.
    pub fn is_exited(&self) -> (r: bool)
        ensures
            r == self@.exited,
    {
        self.exited
    }

    /// The number of the pane.
    pub fn pane_id(&self) -> (r: u64)
        ensures
            r == self@.pane_id,
    {
        self.pane_id
    }

    /// The pane's row in the store.
    pub fn persist_pane_row(&self) -> (r: Option<i64>)
        ensures
            r == self@.persist_pane_row,
    {
        self.persist_pane_row
    }

    /// The session's row in the store.
    pub fn persist_session(&self) -> (r: Option<i64>)
        ensures
            r == self@.persist_session,
    {
        self.persist_session
    }

    /// The shell of the pane.
    pub fn shell(&self) -> (r: ShellSpec)
        ensures
            r == self@.shell,
    {
        self.shell
    }

    /// May bytes be written to the shell? Not while its start-up script runs:
    /// they would get in the script's way.
    pub fn may_write(&self, mode: PaneMode) -> (r: bool)
        ensures
            r == (self@.has_pty && mode != PaneMode::Bootstrapping),
    {
        mode != PaneMode::Bootstrapping && self.has_pty
    }

    /// What is shown of the pane. The directory that the shell reported comes
    /// before the one that the terminal knows.
    pub fn view_of(
        &self,
        mode: PaneMode,
        alt_screen: bool,
        rows: u16,
        cols: u16,
        controller_cwd: Option<String>,
        terminal_cwd: Option<String>,
        screen_text: String,
    ) -> (r: PaneView)
        ensures
            r.bytes_received == self@.bytes_received,
            r.alt_screen == alt_screen,
            r.rows == rows,
            r.cols == cols,
            r.cwd == (if controller_cwd is Some {
                controller_cwd
            } else {
                terminal_cwd
            }),
            r.screen_text == screen_text,
            r.mode == Some(mode),
            r.is_bootstrapping == (mode == PaneMode::Bootstrapping),
    {
        PaneView {
            bytes_received: self.bytes_received,
            alt_screen,
            rows,
            cols,
            cwd: current_cwd(controller_cwd, terminal_cwd),
            screen_text,
            mode: Some(mode),
            is_bootstrapping: mode == PaneMode::Bootstrapping,
        }
    }

    /// The names that complete after a `$`: those that the shell reported, or
    /// before it did those of the environment that it was started with.
    pub fn env_var_names<'a>(&'a self, spawn_names: &'a [String]) -> (r: &'a [String])
        ensures
            strings_view(r@) == (match self@.shell_var_names {
                Some(names) => names,
                None => strings_view(spawn_names@),
            }),
    {
        match &self.shell_var_names {
            Some(names) => effective_var_names(Some(names.as_slice()), spawn_names),
            None => effective_var_names(None, spawn_names),
        }
    }

    /// Takes in the row that a command was recorded in, if it was.
    pub fn run_recorded(&mut self, id: Option<i64>)
        ensures
            final(self)@ == (SessionView {
                capture_state: after_submitted(old(self)@.capture_state, id),
                ..old(self)@
            }),
    {
        self.capture_state.submitted(id);
    }

    /// Is there a change of mode that has not been recorded? `latest` is when the
    /// last one was.
    pub fn take_pending_transition(&mut self, latest: u64) -> (r: bool)
        ensures
            r == (latest != old(self)@.last_transition_at),
            final(self)@ == (SessionView { last_transition_at: latest, ..old(self)@ }),
    {
        let pending = latest != self.last_transition_at;
        self.last_transition_at = latest;
        pending
    }
}

/// The directory of a pane.
pub fn current_cwd(controller_cwd: Option<String>, terminal_cwd: Option<String>) -> (r: Option<
    String,
>)
    ensures
        r == (if controller_cwd is Some {
            controller_cwd
        } else {
            terminal_cwd
        }),
{
    match controller_cwd {
        Some(cwd) => Some(cwd),
        None => terminal_cwd,
    }
}

/// The names that complete after a `$`: the shell's report, even an empty one,
/// comes before what it was started with.
pub fn effective_var_names<'a>(shell: Option<&'a [String]>, snapshot: &'a [String]) -> (r: &'a [String])
    ensures
        r == (match shell {
            Some(names) => names,
            None => snapshot,
        }),
{
    match shell {
        Some(names) => names,
        None => snapshot,
    }
}

// ---- selections --------------------------------------------------------

impl PaneSession {
    /// The selection on the live screen.
    pub fn selection(&self) -> (r: Option<&Selection>)
        ensures
            match r {
                Some(s) => self@.selection == Some(*s),
                None => self@.selection is None,
            },
    {
        self.selection.as_ref()
    }

    /// The selection over finished blocks.
    pub fn pane_selection(&self) -> (r: Option<&PaneSelection>)
        ensures
            match r {
                Some(s) => self@.pane_selection == Some(*s),
                None => self@.pane_selection is None,
            },
    {
        self.pane_selection.as_ref()
    }

    /// Starts a selection on the live screen.
    pub fn start_selection(&mut self, p: Point, mode: SelectionMode)
        ensures
            final(self)@ == (SessionView {
                selection: Some(Selection { anchor: p, head: p, mode, on_link: false }),
                pane_selection: None,
                ..old(self)@
            }),
    {
        self.selection = Some(Selection { anchor: p, head: p, mode, on_link: false });
        self.pane_selection = None;
    }

    /// Starts a selection of a whole link on the live screen.
    pub fn start_url_selection(&mut self, link_start: Point, link_end: Point)
        ensures
            final(self)@ == (SessionView {
                selection: Some(
                    Selection {
                        anchor: link_start,
                        head: link_end,
                        mode: SelectionMode::Word,
                        on_link: true,
                    },
                ),
                pane_selection: None,
                ..old(self)@
            }),
    {
        self.selection = Some(
            Selection {
                anchor: link_start,
                head: link_end,
                mode: SelectionMode::Word,
                on_link: true,
            },
        );
        self.pane_selection = None;
    }

    /// Moves the head of the selection on the live screen, if there is one.
    pub fn extend_selection(&mut self, p: Point)
        ensures
            final(self)@ == (SessionView {
                selection: match old(self)@.selection {
                    Some(s) => Some(Selection { head: p, ..s }),
                    None => None,
                },
                ..old(self)@
            }),
    {
        if let Some(s) = self.selection {
            self.selection = Some(
                Selection { anchor: s.anchor, head: p, mode: s.mode, on_link: s.on_link },
            );
        }
    }

    /// Drops the selection on the live screen.
    pub fn clear_selection(&mut self)
        ensures
            final(self)@ == (SessionView { selection: None, ..old(self)@ }),
    {
        self.selection = None;
    }

    /// Puts a selection over finished blocks in place of any other.
    pub fn set_pane_selection(&mut self, sel: PaneSelection)
        ensures
            final(self)@ == (SessionView {
                selection: None,
                pane_selection: Some(sel),
                ..old(self)@
            }),
    {
        self.selection = None;
        self.pane_selection = Some(sel);
    }

    /// Drops the selection over finished blocks.
    pub fn clear_pane_selection(&mut self)
        ensures
            final(self)@ == (SessionView { pane_selection: None, ..old(self)@ }),
    {
        self.pane_selection = None;
    }

    /// Moves the head of the selection over finished blocks, if there is one; its
    /// anchor stays.
    pub fn update_pane_selection_head(&mut self, head: PaneCursor)
        ensures
            final(self)@ == (SessionView {
                pane_selection: match old(self)@.pane_selection {
                    Some(s) => Some(PaneSelection { head, ..s }),
                    None => None,
                },
                ..old(self)@
            }),
    {
        if let Some(s) = self.pane_selection {
            self.pane_selection = Some(PaneSelection { anchor: s.anchor, head });
        }
    }

    /// Moves both ends of the selection over finished blocks, if there is one.
    pub fn update_pane_selection_endpoints(&mut self, anchor: PaneCursor, head: PaneCursor)
        ensures
            final(self)@ == (SessionView {
                pane_selection: match old(self)@.pane_selection {
                    Some(_) => Some(PaneSelection { anchor, head }),
                    None => None,
                },
                ..old(self)@
            }),
    {
        if self.pane_selection.is_some() {
            self.pane_selection = Some(PaneSelection { anchor, head });
        }
    }
}

// ---- the history in the editor -----------------------------------------

/// What the editor is to show: the text, and the caret, which stands at the end
/// where it is not given.
#[derive(Debug, Clone, PartialEq, Eq)]
pub struct EditorChange {
    pub text: String,
    pub cursor: Option<usize>,
}

/// What the editor is to show, as mathematics.
#[verifier::ext_equal]
pub struct ChangeView {
    pub text: Seq<char>,
    pub cursor: Option<usize>,
}

/// The view of an optional change.
pub open spec fn change_view(c: Option<EditorChange>) -> Option<ChangeView> {
    match c {
        Some(change) => Some(ChangeView { text: change.text@, cursor: change.cursor }),
        None => None,
    }
}

/// What a step through the history changes in the editor.
pub open spec fn recalled(has_editor: bool, outcome: OutcomeView) -> Option<ChangeView> {
    match outcome {
        OutcomeView::Replace { new_text, new_cursor } if has_editor => Some(
            ChangeView { text: new_text, cursor: new_cursor },
        ),
        _ => None,
    }
}

/// What a step through the history changes in the editor; nothing where there is
/// no editor.
pub fn apply_recall_outcome(has_editor: bool, outcome: RecallOutcome) -> (r: Option<EditorChange>)
    ensures
        change_view(r) == recalled(has_editor, outcome@),
{
    if !has_editor {
        return None;
    }
    match outcome {
        RecallOutcome::Replace { new_text, new_cursor } => Some(
            EditorChange { text: new_text, cursor: new_cursor },
        ),
        RecallOutcome::Unchanged => None,
    }
}

impl PaneSession {
    /// Shows the previous command of the history; `editor` is what the editor
    /// holds, and its caret. The first step saves that.
    pub fn editor_history_prev(
        &mut self,
        editor: Option<(&str, usize)>,
        query_fn: impl FnOnce() -> Vec<String>,
    ) -> (r: Option<EditorChange>)
        requires
            old(self)@.wf(),
            call_requires(query_fn, ()),
        ensures
            final(self)@.wf(),
            final(self)@ == (SessionView { recall: final(self)@.recall, ..old(self)@ }),
            !old(self)@.history || editor is None ==> r is None && final(self)@ == old(self)@,
            old(self)@.history && editor is Some && old(self)@.recall.cursor is Some ==> {
                &&& final(self)@.recall == crate::history::recall::next_step(old(self)@.recall).0
                &&& change_view(r) == recalled(
                    true,
                    crate::history::recall::next_step(old(self)@.recall).1,
                )
            },
            old(self)@.history && editor is Some && old(self)@.recall.cursor is None ==> exists|
                past: Vec<String>,
            |
                #![trigger call_ensures(query_fn, (), past)]
                call_ensures(query_fn, (), past) && ({
                    let step = crate::history::recall::first_step(
                        strings_view(past@),
                        editor.unwrap().0@,
                        editor.unwrap().1,
                    );
                    final(self)@.recall == step.0 && change_view(r) == recalled(true, step.1)
                }),
    {
        if !self.history {
            return None;
        }
        match editor {
            Some((text, cursor)) => {
                let outcome = self.recall.step_back(query_fn, text, cursor);
                apply_recall_outcome(true, outcome)
            },
            None => None,
        }
    }

    /// Shows the next command of the history, and past the last one what the
    /// editor held before.
    pub fn editor_history_next(&mut self, has_editor: bool) -> (r: Option<EditorChange>)
        requires
            old(self)@.wf(),
        ensures
            final(self)@.wf(),
            !has_editor ==> r is None && final(self)@ == old(self)@,
            has_editor ==> {
                &&& final(self)@ == (SessionView {
                    recall: crate::history::recall::step_down(old(self)@.recall).0,
                    ..old(self)@
                })
                &&& change_view(r) == recalled(
                    true,
                    crate::history::recall::step_down(old(self)@.recall).1,
                )
            },
    {
        if !has_editor {
            return None;
        }
        let outcome = self.recall.step_forward();
        apply_recall_outcome(true, outcome)
    }

    /// Ends the walk through the history.
    pub fn clear_history_recall(&mut self)
        ensures
            final(self)@ == (SessionView { recall: RecallView::idle(), ..old(self)@ }),
    {
        self.recall.abandon();
    }
}

// ---- laws --------------------------------------------------------------

/// A pane shows at most one selection: to start one drops the other, and to move
/// or drop one keeps that so.
pub proof fn law_one_selection_at_a_time(
    v: SessionView,
    s: Selection,
    p: PaneSelection,
    head: PaneCursor,
    at: Point,
)
    requires
        v.wf(),
    ensures
        (SessionView { selection: Some(s), pane_selection: None, ..v }).wf(),
        (SessionView { selection: None, pane_selection: Some(p), ..v }).wf(),
        (SessionView { selection: None, ..v }).wf(),
        (SessionView { pane_selection: None, ..v }).wf(),
        (SessionView {
            selection: match v.selection {
                Some(s) => Some(Selection { head: at, ..s }),
                None => None,
            },
            ..v
        }).wf(),
        (SessionView {
            pane_selection: match v.pane_selection {
                Some(s) => Some(PaneSelection { head, ..s }),
                None => None,
            },
            ..v
        }).wf(),
{
}

/// A pane that was just started has a shell that runs, and has seen, sent, recorded
/// and selected nothing.
pub proof fn law_fresh_pane_has_seen_nothing(session_id: Seq<char>, pane_id: u64)
    ensures
        ({
            let v = fresh_session(session_id, pane_id);
            &&& v.session_id == session_id && v.pane_id == pane_id
            &&& v.has_pty && !v.exited
            &&& v.bytes_received == 0 && v.frame == 0 && v.last_transition_at == 0
            &&& !v.last_alt_screen && !v.history
            &&& v.last_submitted is None && v.selection is None && v.pane_selection is None
            &&& v.capture_state.current_run_id is None
            &&& v.recall.cursor is None && v.recall.saved is None && v.recall.cached.len() == 0
            &&& v.last_git_branch is None && v.shell_var_names is None
            &&& v.live.in_flight is None && v.live.response is None && v.live.next_id == 0
            &&& v.persist_pane_row is None && v.persist_session is None
        }),
{
}

/// What a step through the history shows goes into the editor as it is, with its
/// caret; a step that changes nothing, and one without an editor, put nothing there.
pub proof fn law_recalled_text_is_shown(
    has_editor: bool,
    new_text: Seq<char>,
    new_cursor: Option<usize>,
)
    ensures
        recalled(has_editor, OutcomeView::Unchanged) is None,
        recalled(false, OutcomeView::Replace { new_text, new_cursor }) is None,
        ({
            let c = recalled(true, OutcomeView::Replace { new_text, new_cursor });
            c is Some && c.unwrap().text == new_text && c.unwrap().cursor == new_cursor
        }),
{
}

/// A pane with a bare shell starts as a terminal, one whose shell starts up under
/// integration is hidden until that is done, and one that was restored has no shell.
pub proof fn law_modes_at_the_start(origin: Origin, r: PaneMode)
    requires
        call_ensures(start_mode, (origin,), r),
    ensures
        r == PaneMode::RawTerminal <==> origin == Origin::Bare,
        r == PaneMode::Bootstrapping <==> origin == Origin::Managed,
        r == PaneMode::Dead <==> origin == Origin::Restored,
{
}

/// Bytes are written to a shell that is there and does not run its start-up script.
pub proof fn law_when_bytes_may_be_written(s: PaneSession, mode: PaneMode, r: bool)
    requires
        call_ensures(PaneSession::may_write, (&s, mode), r),
    ensures
        r <==> s.has_pty && mode != PaneMode::Bootstrapping,
{
}

/// How the store of a pane is opened: not at all without one, with a new pane, or with the
/// one that is taken up again.
pub proof fn law_how_a_store_is_opened(persistent: bool, resume: Option<i64>, r: StoreStart)
    requires
        call_ensures(store_start, (persistent, resume), r),
    ensures
        r == StoreStart::Off <==> !persistent,
        r == StoreStart::Begin <==> persistent && resume is None,
        persistent && resume is Some ==> r == StoreStart::Resume(resume.unwrap()),
{
}

/// The directory that the shell reported counts before the one that the terminal knows,
/// and the variables that it reported before those that it was started with.
pub proof fn law_reports_of_the_shell_count_first(
    reported: Option<String>,
    known: Option<String>,
    r: Option<String>,
    names: Option<&[String]>,
    started: &[String],
    s: &[String],
)
    requires
        call_ensures(current_cwd, (reported, known), r),
        call_ensures(effective_var_names, (names, started), s),
    ensures
        reported is Some ==> r == reported,
        reported is None ==> r == known,
        names matches Some(n) ==> s == n,
        names is None ==> s == started,
{
}

/// A pane that was restored has no shell and keeps its row; one with integration has its
/// shell, its history and its rows.
pub proof fn law_panes_at_the_start(
    restored: PaneSession,
    managed: PaneSession,
    pane_id: u64,
    row: i64,
    session_id: String,
    shell: ShellSpec,
    history: bool,
    rows: Option<(i64, i64)>,
)
    requires
        call_ensures(PaneSession::restored, (pane_id, row), restored),
        call_ensures(
            PaneSession::spawn_managed,
            (session_id, pane_id, shell, history, rows),
            managed,
        ),
    ensures
        !restored.has_pty && !restored.exited && restored.pane_id == pane_id,
        restored.persist_pane_row == Some(row) && restored.persist_session is None,
        managed.has_pty && !managed.exited && managed.pane_id == pane_id,
        managed.session_id@ == session_id@ && managed.shell == shell && managed.history == history,
        match rows {
            Some((p, s)) => managed.persist_pane_row == Some(p) && managed.persist_session == Some(
                s,
            ),
            None => managed.persist_pane_row is None && managed.persist_session is None,
        },
{
    assert(restored@.has_pty == restored.has_pty);
    assert(managed@.has_pty == managed.has_pty);
}

} // verus!
