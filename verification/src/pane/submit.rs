//! Sending the editor's text to the shell.

use crate::history::recall::RecallView;
use crate::integration::ShellSpec;
use crate::markers::EventView;
use crate::osc::text_view;
use crate::pane::drain::{after_message, restored_text};
use crate::pane::framing::{submission, submission_bytes};
use crate::pane::{PaneMode, PaneSession, SessionView};
use crate::text::{chars_of, chars_occur_at, starts_with, string_between};
use vstd::prelude::*;
use vstd::string::*;

verus! {

/// What Enter does.
#[derive(Debug, Clone, PartialEq, Eq)]
pub enum SubmitPlan {
    /// Nothing: there is no editor.
    Nothing,
    /// Interrupt the line that the shell waits for the rest of. The editor keeps
    /// its text.
    Interrupt,
    /// Clear the editor, leave it, and write these bytes to the shell.
    Send { bytes: Vec<u8> },
}

/// What Enter does, as mathematics.
pub enum SubmitView {
    Nothing,
    Interrupt,
    Send { bytes: Seq<u8> },
}

impl View for SubmitPlan {
    type V = SubmitView;

    open spec fn view(&self) -> SubmitView {
        match *self {
            SubmitPlan::Nothing => SubmitView::Nothing,
            SubmitPlan::Interrupt => SubmitView::Interrupt,
            SubmitPlan::Send { bytes } => SubmitView::Send { bytes: bytes@ },
        }
    }
}

/// What the editor holds after Enter: nothing, where its text was sent.
pub open spec fn editor_left(editor: Option<Seq<char>>, plan: SubmitView) -> Option<Seq<char>> {
    match (editor, plan) {
        (Some(_), SubmitView::Send { .. }) => Some(Seq::empty()),
        _ => editor,
    }
}

/// The mode after Enter: where a line was sent from the prompt, the keys go to the
/// program from then on.
pub open spec fn mode_left(mode: PaneMode, plan: SubmitView) -> PaneMode {
    if plan is Send && mode == PaneMode::ShellPromptEditor {
        PaneMode::RawTerminal
    } else {
        mode
    }
}

impl SubmitPlan {
    /// What the editor holds afterwards.
    pub fn editor_after(&self, editor: Option<String>) -> (r: Option<String>)
        ensures
            text_view(r) == editor_left(text_view(editor), self@),
    {
        match (editor, self) {
            (Some(_), SubmitPlan::Send { .. }) => {
                let empty = String::new();
                assert(empty@ =~= Seq::empty());
                Some(empty)
            },
            (other, _) => other,
        }
    }

    /// The mode afterwards.
    pub fn mode_after(&self, mode: PaneMode) -> (r: PaneMode)
        ensures
            r == mode_left(mode, self@),
    {
        match self {
            SubmitPlan::Send { .. } => if mode == PaneMode::ShellPromptEditor {
                PaneMode::RawTerminal
            } else {
                mode
            },
            _ => mode,
        }
    }
}

/// Is the shell waiting for the rest of a line? Then the editor is active again
/// though what was sent last has not started.
pub open spec fn waits_for_more(v: SessionView, has_editor: bool, mode: PaneMode) -> bool {
    has_editor && mode == PaneMode::ShellPromptEditor && v.last_submitted is Some
}

/// What is still to be sent of `text` where the shell has `prev` already: the
/// rest behind it, and behind the newline that parts the two.
pub open spec fn unsent(prev: Seq<char>, text: Seq<char>) -> Seq<char> {
    let rest = text.skip(prev.len() as int);
    if rest.len() > 0 && rest[0] == '\n' {
        rest.skip(1)
    } else {
        rest
    }
}

/// What is sent of `text`.
pub open spec fn line_to_send(last: Option<Seq<char>>, text: Seq<char>) -> Seq<char> {
    match last {
        Some(prev) if starts_with(text, prev) => unsent(prev, text),
        _ => text,
    }
}

/// Nothing sent, and no walk through the history.
pub open spec fn interrupted(v: SessionView) -> SessionView {
    SessionView { last_submitted: None, recall: RecallView::idle(), ..v }
}

/// What Enter does, and the pane after it.
pub open spec fn submitted(v: SessionView, editor: Option<Seq<char>>, mode: PaneMode) -> (
    SessionView,
    SubmitView,
) {
    match editor {
        None => (v, SubmitView::Nothing),
        Some(text) => if waits_for_more(v, true, mode) && !starts_with(
            text,
            v.last_submitted.unwrap(),
        ) {
            (interrupted(v), SubmitView::Interrupt)
        } else {
            (
                SessionView { last_submitted: Some(text), recall: RecallView::idle(), ..v },
                SubmitView::Send {
                    bytes: submission(v.shell, line_to_send(v.last_submitted, text)),
                },
            )
        },
    }
}

/// Does `text` start with `prefix`?
fn begins_with(text: &[char], prefix: &[char]) -> (r: bool)
    ensures
        r == starts_with(text@, prefix@),
{
    prefix.len() <= text.len() && chars_occur_at(text, prefix, 0)
}

/// Does the editor take the input? It does at the prompt, where there is one.
pub fn editor_is_active(has_editor: bool, mode: PaneMode) -> (r: bool)
    ensures
        r == (has_editor && mode == PaneMode::ShellPromptEditor),
{
    mode == PaneMode::ShellPromptEditor && has_editor
}

impl PaneSession {
    /// Is the shell waiting for the rest of a line?
    pub fn awaiting_continuation(&self, has_editor: bool, mode: PaneMode) -> (r: bool)
        ensures
            r == waits_for_more(self@, has_editor, mode),
    {
        editor_is_active(has_editor, mode) && self.last_submitted.is_some()
    }

    /// Decides what Enter does; `editor` is what the editor holds.
    ///
    /// An empty text is sent too: the shell then shows a new prompt. Where the
    /// shell waits for the rest of a line, only what it does not have yet is
    /// sent. Where the text no longer goes on from what the shell has, that line
    /// is interrupted, and the next Enter sends the text to a fresh prompt.
    pub fn submit_editor_command(&mut self, editor: Option<&str>, mode: PaneMode) -> (r: SubmitPlan)
        ensures
            (final(self)@, r@) == submitted(
                old(self)@,
                match editor {
                    Some(s) => Some(s@),
                    None => None,
                },
                mode,
            ),
    {
        let text = match editor {
            Some(text) => text,
            None => return SubmitPlan::Nothing,
        };
        let chars = chars_of(text);
        let mut to_send: Option<String> = None;
        let mut extends = false;
        if let Some(prev) = &self.last_submitted {
            let sent = chars_of(prev.as_str());
            extends = begins_with(chars.as_slice(), sent.as_slice());
            if extends {
                let mut from: usize = sent.len();
                let ghost rest = chars@.skip(from as int);
                if from < chars.len() && chars[from] == '\n' {
                    from = from + 1;
                    assert(rest.skip(1) =~= chars@.skip(from as int));
                }
                assert(chars@.subrange(from as int, chars@.len() as int) =~= unsent(
                    sent@,
                    chars@,
                ));
                to_send = Some(string_between(chars.as_slice(), from, chars.len()));
            }
        }
        if self.awaiting_continuation(true, mode) && !extends {
            self.last_submitted = None;
            self.recall.abandon();
            return SubmitPlan::Interrupt;
        }
        self.recall.abandon();
        self.last_submitted = Some(text.to_owned());
        let bytes = match to_send {
            Some(line) => submission_bytes(line.as_str(), self.shell),
            None => submission_bytes(text, self.shell),
        };
        SubmitPlan::Send { bytes }
    }

    /// Gives up the line that the shell waits for the rest of: true where the
    /// editor is to be cleared and the shell interrupted. At an idle prompt
    /// nothing happens.
    pub fn abort_continuation(&mut self, has_editor: bool, mode: PaneMode) -> (r: bool)
        ensures
            r == waits_for_more(old(self)@, has_editor, mode),
            final(self)@ == (if r {
                interrupted(old(self)@)
            } else {
                old(self)@
            }),
    {
        if !self.awaiting_continuation(has_editor, mode) {
            return false;
        }
        self.last_submitted = None;
        self.recall.abandon();
        true
    }
}

// ---- laws --------------------------------------------------------------

/// A first line is sent whole.
pub proof fn law_first_line_is_sent_whole(v: SessionView, text: Seq<char>, mode: PaneMode)
    requires
        v.last_submitted is None,
    ensures
        submitted(v, Some(text), mode).1 == (SubmitView::Send { bytes: submission(v.shell, text) }),
        submitted(v, Some(text), mode).0.last_submitted == Some(text),
{
}

/// The shell gets no part of a line twice: of a text that goes on from what it has,
/// behind a newline, exactly what is new is sent.
pub proof fn law_only_the_rest_is_sent(
    v: SessionView,
    prev: Seq<char>,
    rest: Seq<char>,
    mode: PaneMode,
)
    requires
        v.last_submitted == Some(prev),
    ensures
        submitted(v, Some(prev.push('\n') + rest), mode).1 == (SubmitView::Send {
            bytes: submission(v.shell, rest),
        }),
{
    let text = prev.push('\n') + rest;
    assert(text.take(prev.len() as int) =~= prev);
    assert(starts_with(text, prev)) by {
        assert(text.subrange(0, prev.len() as int) =~= prev);
    }
    assert(text.skip(prev.len() as int)[0] == '\n');
    assert(text.skip(prev.len() as int).skip(1) =~= rest);
}

/// A command of several lines reaches the shell once, line by line. The first Enter
/// sends its first line; where the shell waits for more, the editor gets that line
/// back with a newline behind it; and the second Enter sends only what was added
/// then. Either Enter empties the editor, hands the keys to the program and ends the
/// walk through the history, and a shell that still waits gets the whole command back
/// into the editor.
pub proof fn law_continued_command_is_sent_once(
    v: SessionView,
    first: Seq<char>,
    added: Seq<char>,
    alternate: bool,
)
    requires
        v.last_submitted is None,
    ensures
        ({
            let mode = PaneMode::ShellPromptEditor;
            let whole = first.push('\n') + added;
            let (v1, plan1) = submitted(v, Some(first), mode);
            let v2 = after_message(v1, EventView::Continuation, alternate);
            let (v3, plan3) = submitted(v2, Some(whole), mode);
            &&& plan1 == (SubmitView::Send { bytes: submission(v.shell, first) })
            &&& editor_left(Some(first), plan1) == Some(Seq::<char>::empty())
            &&& mode_left(mode, plan1) == PaneMode::RawTerminal
            &&& restored_text(v1, EventView::Continuation, true) == Some(first.push('\n'))
            &&& plan3 == (SubmitView::Send { bytes: submission(v.shell, added) })
            &&& editor_left(Some(whole), plan3) == Some(Seq::<char>::empty())
            &&& mode_left(mode, plan3) == PaneMode::RawTerminal
            &&& v3.recall == RecallView::idle()
            &&& restored_text(v3, EventView::Continuation, true) == Some(whole.push('\n'))
        }),
{
    let (v1, _) = submitted(v, Some(first), PaneMode::ShellPromptEditor);
    let v2 = after_message(v1, EventView::Continuation, alternate);
    assert(v2.last_submitted == Some(first));
    law_only_the_rest_is_sent(v2, first, added, PaneMode::ShellPromptEditor);
    let whole = first.push('\n') + added;
    assert(starts_with(whole, first)) by {
        assert(whole.subrange(0, first.len() as int) =~= first);
    }
}

/// To zsh and bash a line goes as it was typed, with a carriage return behind it.
pub proof fn law_lines_go_as_typed(shell: ShellSpec, text: Seq<char>)
    requires
        shell != ShellSpec::Fish,
    ensures
        submission(shell, text) == vstd::utf8::encode_utf8(text.push('\r')),
{
}

/// A pane that waits for the rest of a line is never stuck: a text that does not go
/// on from it interrupts the line, and the next Enter sends that text whole.
pub proof fn law_second_enter_sends_the_new_line(v: SessionView, prev: Seq<char>, text: Seq<char>)
    requires
        v.last_submitted == Some(prev),
        !starts_with(text, prev),
    ensures
        ({
            let first = submitted(v, Some(text), PaneMode::ShellPromptEditor);
            let second = submitted(first.0, Some(text), PaneMode::ShellPromptEditor);
            &&& first.1 == SubmitView::Interrupt
            &&& second.1 == (SubmitView::Send { bytes: submission(v.shell, text) })
        }),
{
}

/// At an idle prompt there is nothing to give up.
pub proof fn law_idle_prompt_has_nothing_to_interrupt(
    v: SessionView,
    has_editor: bool,
    mode: PaneMode,
)
    requires
        v.last_submitted is None,
    ensures
        !waits_for_more(v, has_editor, mode),
{
}

/// Enter empties the editor and hands the keys to the program only where it sends a
/// line; an interrupt, and Enter without an editor, leave the editor and the mode
/// alone.
pub proof fn law_enter_leaves_what_it_does_not_send(
    editor: Option<Seq<char>>,
    mode: PaneMode,
    bytes: Seq<u8>,
)
    ensures
        editor_left(editor, SubmitView::Nothing) == editor,
        editor_left(editor, SubmitView::Interrupt) == editor,
        editor is Some ==> editor_left(editor, SubmitView::Send { bytes }) == Some(
            Seq::<char>::empty(),
        ),
        editor is None ==> editor_left(editor, SubmitView::Send { bytes }) is None,
        mode_left(mode, SubmitView::Nothing) == mode,
        mode_left(mode, SubmitView::Interrupt) == mode,
        mode_left(PaneMode::ShellPromptEditor, SubmitView::Send { bytes }) == PaneMode::RawTerminal,
        mode != PaneMode::ShellPromptEditor ==> mode_left(mode, SubmitView::Send { bytes }) == mode,
{
}

/// What Enter changes of the pane: what was sent last, which is the whole text of the
/// editor, or nothing after an interrupt; and the walk through the history, which
/// ends. Without an editor it changes nothing.
pub proof fn law_enter_notes_the_text(v: SessionView, editor: Option<Seq<char>>, mode: PaneMode)
    ensures
        ({
            let (w, plan) = submitted(v, editor, mode);
            match editor {
                None => w == v && plan is Nothing,
                Some(text) => {
                    &&& w.recall.cursor is None && w.recall.saved is None && w.recall.cached.len() == 0
                    &&& w == (SessionView {
                        last_submitted: w.last_submitted,
                        recall: w.recall,
                        ..v
                    })
                    &&& plan is Interrupt ==> w.last_submitted is None
                    &&& plan is Send ==> w.last_submitted == Some(text)
                    &&& plan is Interrupt <==> mode == PaneMode::ShellPromptEditor && (
                    v.last_submitted matches Some(prev) && !(prev.len() <= text.len() && text.take(
                        prev.len() as int,
                    ) == prev))
                    &&& !(plan is Nothing)
                },
            }
        }),
{
    let (w, plan) = submitted(v, editor, mode);
    if let Some(text) = editor {
        assert(w =~= (SessionView { last_submitted: w.last_submitted, recall: w.recall, ..v }));
        if let Some(prev) = v.last_submitted {
            if prev.len() <= text.len() {
                assert(text.subrange(0, prev.len() as int) =~= text.take(prev.len() as int));
            }
        }
    }
}

/// What Enter sends to zsh and bash, byte for byte: where the shell has the beginning
/// of the text, the rest behind it, without the newline between the two; else the
/// whole text. A carriage return follows.
pub proof fn law_enter_sends_what_the_shell_lacks(
    v: SessionView,
    prev: Seq<char>,
    rest: Seq<char>,
    text: Seq<char>,
    mode: PaneMode,
)
    requires
        v.shell != ShellSpec::Fish,
    ensures
        v.last_submitted == Some(prev) ==> submitted(v, Some(prev + seq!['\n'] + rest), mode).1 == (
        SubmitView::Send { bytes: vstd::utf8::encode_utf8(rest + seq!['\r']) }),
        v.last_submitted == Some(prev) && (rest.len() == 0 || rest[0] != '\n') ==> submitted(
            v,
            Some(prev + rest),
            mode,
        ).1 == (SubmitView::Send { bytes: vstd::utf8::encode_utf8(rest + seq!['\r']) }),
        v.last_submitted is None ==> submitted(v, Some(text), mode).1 == (SubmitView::Send {
            bytes: vstd::utf8::encode_utf8(text + seq!['\r']),
        }),
        (v.last_submitted matches Some(p) && !starts_with(text, p)) && mode
            != PaneMode::ShellPromptEditor ==> submitted(v, Some(text), mode).1 == (
        SubmitView::Send { bytes: vstd::utf8::encode_utf8(text + seq!['\r']) }),
{
    assert(rest.push('\r') =~= rest + seq!['\r']);
    assert(text.push('\r') =~= text + seq!['\r']);
    let broken = prev + seq!['\n'] + rest;
    assert(broken =~= prev.push('\n') + rest);
    if v.last_submitted == Some(prev) {
        law_only_the_rest_is_sent(v, prev, rest, mode);
        let whole = prev + rest;
        assert(whole.subrange(0, prev.len() as int) =~= prev);
        assert(whole.skip(prev.len() as int) =~= rest);
    }
}

/// The shell waits for more where the editor is there, at the prompt, and what was
/// sent last has not started; and in no other state.
pub proof fn law_when_the_shell_waits(v: SessionView, has_editor: bool, mode: PaneMode)
    ensures
        waits_for_more(v, has_editor, mode) <==> (has_editor && mode == PaneMode::ShellPromptEditor
            && v.last_submitted is Some),
        interrupted(v).last_submitted is None,
        interrupted(v).recall.cursor is None,
        interrupted(v).recall.saved is None,
        interrupted(v).recall.cached.len() == 0,
        interrupted(v) == (SessionView {
            last_submitted: interrupted(v).last_submitted,
            recall: interrupted(v).recall,
            ..v
        }),
{
    assert(interrupted(v) =~= (SessionView {
        last_submitted: interrupted(v).last_submitted,
        recall: interrupted(v).recall,
        ..v
    }));
}

/// A plan is what its fields say, and the editor takes the input at the prompt alone.
pub proof fn law_plans_are_what_they_say(p: SubmitPlan, has_editor: bool, mode: PaneMode, r: bool)
    requires
        call_ensures(editor_is_active, (has_editor, mode), r),
    ensures
        match p {
            SubmitPlan::Nothing => p@ is Nothing,
            SubmitPlan::Interrupt => p@ is Interrupt,
            SubmitPlan::Send { bytes } => p@ is Send && p@->bytes == bytes@,
        },
        r <==> has_editor && mode == PaneMode::ShellPromptEditor,
{
}

} // verus!
