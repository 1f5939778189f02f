//! Walking the history with the arrow keys.
//!
//! The first step up saves the editor's text and caret and fetches the
//! history; stepping down past the most recent entry restores both.

use vstd::prelude::*;

use crate::json::strings_view;
use crate::text::same_text;

verus! {

/// What a step does to the editor.
#[derive(Debug, Clone, PartialEq, Eq)]
pub enum RecallOutcome {
    /// The editor now reads `new_text`, with the caret at `new_cursor`, or at
    /// the end where that is `None`.
    Replace { new_text: String, new_cursor: Option<usize> },
    /// The editor stays as it is.
    Unchanged,
}

/// A step's effect, as mathematics.
pub enum OutcomeView {
    Replace { new_text: Seq<char>, new_cursor: Option<usize> },
    Unchanged,
}

impl View for RecallOutcome {
    type V = OutcomeView;

    open spec fn view(&self) -> OutcomeView {
        match *self {
            RecallOutcome::Replace { new_text, new_cursor } => OutcomeView::Replace {
                new_text: new_text@,
                new_cursor,
            },
            RecallOutcome::Unchanged => OutcomeView::Unchanged,
        }
    }
}

/// The editor's state before the walk.
#[derive(Debug, Clone, PartialEq, Eq)]
pub struct SavedBuffer {
    pub text: String,
    pub cursor: usize,
}

/// The state of a walk.
#[derive(Debug, Clone)]
pub struct RecallState {
    saved: Option<SavedBuffer>,
    cached: Vec<String>,
    cursor: Option<usize>,
}

/// A saved buffer, as mathematics.
pub struct SavedView {
    pub text: Seq<char>,
    pub cursor: usize,
}

/// The state of a walk, as mathematics.
#[verifier::ext_equal]
pub struct RecallView {
    /// The editor's state before the walk, during one.
    pub saved: Option<SavedView>,
    /// The entries of the walk, most recent first.
    pub cached: Seq<Seq<char>>,
    /// Which entry is shown, during a walk.
    pub cursor: Option<int>,
}

impl RecallView {
    /// During a walk an entry is shown and the editor's state is saved.
    pub open spec fn wf(self) -> bool {
        match self.cursor {
            Some(c) => 0 <= c < self.cached.len() && self.saved is Some,
            None => self.saved is None,
        }
    }

    /// No walk.
    pub open spec fn idle() -> RecallView {
        RecallView { saved: None, cached: Seq::empty(), cursor: None }
    }
}

/// The entries of a walk that starts on `text`: the history, without its
/// first entry where that is the text itself.
pub open spec fn walk_entries(history: Seq<Seq<char>>, text: Seq<char>) -> Seq<Seq<char>> {
    if history.len() > 0 && history[0] == text {
        history.skip(1)
    } else {
        history
    }
}

/// The first step up.
pub open spec fn first_step(history: Seq<Seq<char>>, text: Seq<char>, cursor: usize) -> (
    RecallView,
    OutcomeView,
) {
    let entries = walk_entries(history, text);
    if entries.len() == 0 {
        (RecallView { saved: None, cached: entries, cursor: None }, OutcomeView::Unchanged)
    } else {
        (
            RecallView {
                saved: Some(SavedView { text, cursor }),
                cached: entries,
                cursor: Some(0),
            },
            OutcomeView::Replace { new_text: entries[0], new_cursor: None },
        )
    }
}

/// A further step up.
pub open spec fn next_step(v: RecallView) -> (RecallView, OutcomeView) {
    let next = v.cursor.unwrap() + 1;
    if next >= v.cached.len() {
        (v, OutcomeView::Unchanged)
    } else {
        (
            RecallView { cursor: Some(next), ..v },
            OutcomeView::Replace { new_text: v.cached[next], new_cursor: None },
        )
    }
}

/// A step down.
pub open spec fn step_down(v: RecallView) -> (RecallView, OutcomeView) {
    match v.cursor {
        None => (v, OutcomeView::Unchanged),
        Some(c) => if c == 0 {
            (
                RecallView::idle(),
                OutcomeView::Replace {
                    new_text: v.saved.unwrap().text,
                    new_cursor: Some(v.saved.unwrap().cursor),
                },
            )
        } else {
            (
                RecallView { cursor: Some(c - 1), ..v },
                OutcomeView::Replace { new_text: v.cached[c - 1], new_cursor: None },
            )
        },
    }
}

impl View for RecallState {
    type V = RecallView;

    closed spec fn view(&self) -> RecallView {
        RecallView {
            saved: match self.saved {
                Some(b) => Some(SavedView { text: b.text@, cursor: b.cursor }),
                None => None,
            },
            cached: strings_view(self.cached@),
            cursor: match self.cursor {
                Some(c) => Some(c as int),
                None => None,
            },
        }
    }
}

impl RecallState {
    /// Is a walk in progress?
    pub fn is_walking(&self) -> (r: bool)
        ensures
            r == self@.cursor is Some,
    {
        self.cursor.is_some()
    }

    /// The editor's state before the walk, during one.
    pub fn saved(&self) -> (r: Option<&SavedBuffer>)
        ensures
            match r {
                Some(b) => self@.saved == Some(SavedView { text: b.text@, cursor: b.cursor }),
                None => self@.saved is None,
            },
    {
        self.saved.as_ref()
    }

    /// Ends the walk, so that the next step up starts afresh.
    pub fn abandon(&mut self)
        ensures
            final(self)@ == RecallView::idle(),
    {
        self.saved = None;
        self.cached = Vec::new();
        self.cursor = None;
        assert(strings_view(self.cached@) =~= Seq::empty());
    }

    /// Shows the previous, older entry. The first step of a walk saves the
    /// editor's state and fetches the history, most recent first; later steps
    /// fetch nothing.
    pub fn step_back(
        &mut self,
        query_fn: impl FnOnce() -> Vec<String>,
        current_text: &str,
        current_cursor: usize,
    ) -> (r: RecallOutcome)
        requires
            old(self)@.wf(),
            old(self)@.cursor is None ==> call_requires(query_fn, ()),
        ensures
            final(self)@.wf(),
            old(self)@.cursor is None ==> exists|history: Vec<String>|
                #![trigger call_ensures(query_fn, (), history)]
                call_ensures(query_fn, (), history) && (final(self)@, r@) == first_step(
                    strings_view(history@),
                    current_text@,
                    current_cursor,
                ),
            old(self)@.cursor is Some ==> (final(self)@, r@) == next_step(old(self)@),
    {
        match self.cursor {
            None => {
                let mut entries = query_fn();
                let ghost history = entries;
                assert(call_ensures(query_fn, (), history));
                if entries.len() > 0 && same_text(entries[0].as_str(), current_text) {
                    let _ = entries.remove(0);
                    assert(strings_view(entries@) =~= strings_view(history@).skip(1));
                }
                assert(strings_view(entries@) == walk_entries(
                    strings_view(history@),
                    current_text@,
                ));
                if entries.len() == 0 {
                    self.cached = entries;
                    self.saved = None;
                    return RecallOutcome::Unchanged;
                }
                let shown = entries[0].clone();
                self.saved = Some(
                    SavedBuffer { text: current_text.to_owned(), cursor: current_cursor },
                );
                self.cached = entries;
                self.cursor = Some(0);
                RecallOutcome::Replace { new_text: shown, new_cursor: None }
            },
            Some(c) => {
                let count: usize = self.cached.len();
                assert(c < count);
                if c + 1 >= count {
                    return RecallOutcome::Unchanged;
                }
                let shown = self.cached[c + 1].clone();
                self.cursor = Some(c + 1);
                RecallOutcome::Replace { new_text: shown, new_cursor: None }
            },
        }
    }

    /// Shows the next, newer entry. Past the most recent one it restores the
    /// editor's text and caret and ends the walk.
    pub fn step_forward(&mut self) -> (r: RecallOutcome)
        requires
            old(self)@.wf(),
        ensures
            final(self)@.wf(),
            (final(self)@, r@) == step_down(old(self)@),
    {
        match self.cursor {
            None => RecallOutcome::Unchanged,
            Some(c) => {
                if c == 0 {
                    let saved = self.saved.take();
                    self.cached = Vec::new();
                    self.cursor = None;
                    assert(strings_view(self.cached@) =~= Seq::empty());
                    match saved {
                        Some(b) => RecallOutcome::Replace {
                            new_text: b.text,
                            new_cursor: Some(b.cursor),
                        },
                        None => RecallOutcome::Unchanged,
                    }
                } else {
                    let shown = self.cached[c - 1].clone();
                    self.cursor = Some(c - 1);
                    RecallOutcome::Replace { new_text: shown, new_cursor: None }
                }
            },
        }
    }
}

impl Default for RecallState {
    fn default() -> (r: RecallState)
        ensures
            r@ == RecallView::idle(),
    {
        let r = RecallState { saved: None, cached: Vec::new(), cursor: None };
        assert(strings_view(r.cached@) =~= Seq::empty());
        r
    }
}

// ---- laws --------------------------------------------------------------

/// The state after `n` further steps up.
pub open spec fn steps_up(v: RecallView, n: nat) -> RecallView
    decreases n,
{
    if n == 0 {
        v
    } else {
        next_step(steps_up(v, (n - 1) as nat)).0
    }
}

/// The state after `n` steps down.
pub open spec fn steps_down(v: RecallView, n: nat) -> RecallView
    decreases n,
{
    if n == 0 {
        v
    } else {
        step_down(steps_down(v, (n - 1) as nat)).0
    }
}

/// What the step up does that comes after `n` others, the first of which starts
/// the walk.
pub open spec fn nth_step(
    history: Seq<Seq<char>>,
    text: Seq<char>,
    cursor: usize,
    n: nat,
) -> OutcomeView {
    if n == 0 {
        first_step(history, text, cursor).1
    } else {
        next_step(steps_up(first_step(history, text, cursor).0, (n - 1) as nat)).1
    }
}

/// Steps up move away from the most recent entry one at a time, as far as the
/// oldest, and keep what was saved and what was fetched.
proof fn lemma_steps_up(v: RecallView, n: nat)
    requires
        v.wf(),
        v.cursor is Some,
    ensures
        steps_up(v, n).wf(),
        steps_up(v, n) == (RecallView {
            cursor: if v.cursor.unwrap() + n < v.cached.len() {
                Some(v.cursor.unwrap() + n)
            } else {
                Some(v.cached.len() - 1)
            },
            ..v
        }),
    decreases n,
{
    if n > 0 {
        lemma_steps_up(v, (n - 1) as nat);
    }
}

/// Steps down move towards the most recent entry one at a time.
proof fn lemma_steps_down(v: RecallView, n: nat)
    requires
        v.wf(),
        v.cursor is Some,
        n <= v.cursor.unwrap(),
    ensures
        steps_down(v, n) == (RecallView { cursor: Some(v.cursor.unwrap() - n), ..v }),
    decreases n,
{
    if n > 0 {
        lemma_steps_down(v, (n - 1) as nat);
    }
}

/// However far a walk went up, stepping down past the most recent entry gives
/// back the text and the caret that it started from, and ends it.
pub proof fn law_walk_restores_the_editor(
    history: Seq<Seq<char>>,
    text: Seq<char>,
    cursor: usize,
    ups: nat,
)
    requires
        walk_entries(history, text).len() > 0,
    ensures
        ({
            let top = steps_up(first_step(history, text, cursor).0, ups);
            let shown = top.cursor.unwrap();
            &&& top.cursor is Some && shown >= 0
            &&& step_down(steps_down(top, shown as nat)) == (
                RecallView::idle(),
                OutcomeView::Replace { new_text: text, new_cursor: Some(cursor) },
            )
        }),
{
    let first = first_step(history, text, cursor).0;
    lemma_steps_up(first, ups);
    let top = steps_up(first, ups);
    lemma_steps_down(top, top.cursor.unwrap() as nat);
}

/// Each step up shows the next older entry: the first the most recent one, the
/// one after `n` others the one with `n` more recent. Past the oldest the editor
/// stays as it is. (Where there is no entry, no walk starts.)
pub proof fn law_each_step_shows_the_next_entry(
    history: Seq<Seq<char>>,
    text: Seq<char>,
    cursor: usize,
    n: nat,
)
    requires
        walk_entries(history, text).len() > 0,
    ensures
        ({
            let entries = walk_entries(history, text);
            nth_step(history, text, cursor, n) == (if n < entries.len() {
                OutcomeView::Replace { new_text: entries[n as int], new_cursor: None }
            } else {
                OutcomeView::Unchanged
            })
        }),
{
    let first = first_step(history, text, cursor).0;
    if n > 0 {
        lemma_steps_up(first, (n - 1) as nat);
    }
}

/// With nothing to show, a step up saves nothing and starts no walk.
pub proof fn law_empty_history_saves_nothing(
    history: Seq<Seq<char>>,
    text: Seq<char>,
    cursor: usize,
)
    requires
        walk_entries(history, text).len() == 0,
    ensures
        first_step(history, text, cursor).0.saved is None,
        first_step(history, text, cursor).0.cursor is None,
        first_step(history, text, cursor).1 == OutcomeView::Unchanged,
{
}

/// A walk goes through the whole history, but for its first entry where that is what the
/// editor shows already.
pub proof fn law_what_a_walk_goes_through(history: Seq<Seq<char>>, text: Seq<char>, i: int)
    ensures
        history.len() > 0 && history[0] == text ==> {
            let entries = walk_entries(history, text);
            entries.len() == history.len() - 1 && (0 <= i < entries.len() ==> entries[i] == history[i
                + 1])
        },
        history.len() == 0 || history[0] != text ==> walk_entries(history, text) == history,
{
}

/// A step down shows the next newer entry, and from the most recent one what the editor
/// held when the walk began, with its caret; then the walk is over. Without a walk
/// nothing happens.
pub proof fn law_each_step_down(v: RecallView)
    requires
        v.wf(),
    ensures
        ({
            let (w, shown) = step_down(v);
            match v.cursor {
                None => w == v && shown is Unchanged,
                Some(c) => if c > 0 {
                    &&& w.cursor == Some(c - 1)
                    &&& w.saved == v.saved && w.cached == v.cached
                    &&& shown is Replace && shown->new_text == v.cached[c - 1]
                        && shown->new_cursor is None
                } else {
                    &&& w.cursor is None && w.saved is None && w.cached.len() == 0
                    &&& shown is Replace && shown->new_text == v.saved.unwrap().text
                        && shown->new_cursor == Some(v.saved.unwrap().cursor)
                },
            }
        }),
{
}

/// The first step up saves what the editor holds, text and caret.
pub proof fn law_first_step_saves_the_editor(
    history: Seq<Seq<char>>,
    text: Seq<char>,
    cursor: usize,
)
    requires
        walk_entries(history, text).len() > 0,
    ensures
        ({
            let w = first_step(history, text, cursor).0;
            &&& w.saved is Some
            &&& w.saved.unwrap().text == text
            &&& w.saved.unwrap().cursor == cursor
            &&& w.cached == walk_entries(history, text)
            &&& w.cursor == Some(0int)
            &&& w.wf()
        }),
        RecallView::idle().wf(),
        RecallView::idle().cursor is None,
        RecallView::idle().cached.len() == 0,
{
}

/// What a step does is what the fields say.
pub proof fn law_steps_are_what_they_say(o: RecallOutcome)
    ensures
        match o {
            RecallOutcome::Replace { new_text, new_cursor } => o@ is Replace && o@->new_text
                == new_text@ && o@->new_cursor == new_cursor,
            RecallOutcome::Unchanged => o@ is Unchanged,
        },
{
}

} // verus!
