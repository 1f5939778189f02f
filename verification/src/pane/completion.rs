//! Completion by the pane's own shell: one request at a time, each with a number
//! that its answer repeats.

use crate::integration::ShellSpec;
use crate::json::{copy_strings, strings_view};
use crate::pane::PaneMode;
use vstd::prelude::*;

verus! {

/// How long the shell has for an answer, in milliseconds.
pub const LIVE_COMPLETION_TIMEOUT_MS: i64 = 600;

/// Who completes.
#[derive(Debug, Clone, Copy, PartialEq, Eq, Structural)]
pub enum DriverTool {
    FishComplete,
    ZshComplete,
    /// A program that is run for its completions.
    Program,
}

/// A request that waits for its answer.
#[derive(Debug, Clone, Copy, PartialEq, Eq, Structural)]
pub struct LiveCompletion {
    pub id: u64,
    pub sent_ms: i64,
    pub tool: DriverTool,
}

/// An answer: the lines of the shell, or none where it did not answer in time.
#[derive(Debug, Clone, PartialEq, Eq)]
pub struct LiveReply {
    pub tool: DriverTool,
    pub lines: Vec<String>,
}

/// An answer, as mathematics.
#[verifier::ext_equal]
pub struct ReplyView {
    pub tool: DriverTool,
    pub lines: Seq<Seq<char>>,
}

/// The requests of a pane.
#[derive(Debug, Clone, PartialEq, Eq)]
pub struct LiveCompletions {
    /// The request that waits for its answer, if any.
    pub in_flight: Option<LiveCompletion>,
    /// An answer that nobody has taken yet.
    pub response: Option<LiveReply>,
    /// The number of the next request.
    pub next_id: u64,
}

/// The requests of a pane, as mathematics.
#[verifier::ext_equal]
pub struct LiveView {
    pub in_flight: Option<LiveCompletion>,
    pub response: Option<ReplyView>,
    pub next_id: u64,
}

/// The view of an optional answer.
pub open spec fn reply_view(r: Option<LiveReply>) -> Option<ReplyView> {
    match r {
        Some(reply) => Some(ReplyView { tool: reply.tool, lines: strings_view(reply.lines@) }),
        None => None,
    }
}

impl View for LiveCompletions {
    type V = LiveView;

    open spec fn view(&self) -> LiveView {
        LiveView {
            in_flight: self.in_flight,
            response: reply_view(self.response),
            next_id: self.next_id,
        }
    }
}

/// No requests yet.
pub open spec fn no_requests() -> LiveView {
    LiveView { in_flight: None, response: None, next_id: 0 }
}

/// After a new request was begun: the one before it is given up.
pub open spec fn live_begun(v: LiveView) -> LiveView {
    LiveView {
        in_flight: None,
        next_id: if v.next_id == u64::MAX {
            0
        } else {
            (v.next_id + 1) as u64
        },
        ..v
    }
}

/// After the request `id` was sent.
pub open spec fn live_sent(v: LiveView, id: u64, tool: DriverTool, now_ms: i64) -> LiveView {
    LiveView { in_flight: Some(LiveCompletion { id, sent_ms: now_ms, tool }), ..v }
}

/// After an answer to request `id` came in: it is taken where that request
/// waits for it, and dropped where not.
pub open spec fn live_answered(v: LiveView, id: u64, lines: Seq<Seq<char>>) -> LiveView {
    match v.in_flight {
        Some(f) if f.id == id => LiveView {
            in_flight: None,
            response: Some(ReplyView { tool: f.tool, lines }),
            ..v
        },
        _ => v,
    }
}

/// Is the request overdue?
pub open spec fn overdue(f: LiveCompletion, now_ms: i64) -> bool {
    now_ms - f.sent_ms >= LIVE_COMPLETION_TIMEOUT_MS
}

/// After a look at the clock: an overdue request is answered with no lines.
pub open spec fn live_ticked(v: LiveView, now_ms: i64) -> LiveView {
    match v.in_flight {
        Some(f) if overdue(f, now_ms) => LiveView {
            in_flight: None,
            response: Some(ReplyView { tool: f.tool, lines: Seq::empty() }),
            ..v
        },
        _ => v,
    }
}

impl Default for LiveCompletions {
    fn default() -> (r: LiveCompletions)
        ensures
            r@ == no_requests(),
    {
        LiveCompletions { in_flight: None, response: None, next_id: 0 }
    }
}

impl LiveCompletions {
    /// Begins a request and gives its number. The request before it is given
    /// up: its answer, should one come, is dropped. Where the new one cannot be
    /// sent, nothing waits.
    pub fn begin(&mut self) -> (id: u64)
        ensures
            id == old(self).next_id,
            final(self)@ == live_begun(old(self)@),
    {
        let id: u64 = self.next_id;
        self.in_flight = None;
        self.next_id = if id == u64::MAX {
            0
        } else {
            id + 1
        };
        id
    }

    /// Notes that request `id` was sent.
    pub fn sent(&mut self, id: u64, tool: DriverTool, now_ms: i64)
        ensures
            final(self)@ == live_sent(old(self)@, id, tool, now_ms),
    {
        self.in_flight = Some(LiveCompletion { id, sent_ms: now_ms, tool });
    }

    /// Takes in an answer to request `id`.
    pub fn ingest_live_completion(&mut self, id: u64, lines: &Vec<String>)
        ensures
            final(self)@ == live_answered(old(self)@, id, strings_view(lines@)),
    {
        if let Some(f) = self.in_flight {
            if f.id == id {
                self.in_flight = None;
                self.response = Some(LiveReply { tool: f.tool, lines: copy_strings(lines) });
            }
        }
    }

    /// Gives up on a request that is overdue.
    pub fn tick_live_completion_timeout(&mut self, now_ms: i64)
        ensures
            final(self)@ == live_ticked(old(self)@, now_ms),
    {
        if let Some(f) = self.in_flight {
            if now_ms as i128 - f.sent_ms as i128 >= LIVE_COMPLETION_TIMEOUT_MS as i128 {
                self.in_flight = None;
                let lines: Vec<String> = Vec::new();
                assert(strings_view(lines@) =~= Seq::empty());
                self.response = Some(LiveReply { tool: f.tool, lines });
            }
        }
    }

    /// Takes the answer, if there is one.
    pub fn completion_driver_poll(&mut self) -> (r: Option<LiveReply>)
        ensures
            reply_view(r) == old(self)@.response,
            final(self)@ == (LiveView { response: None, ..old(self)@ }),
    {
        self.response.take()
    }
}

/// Can the pane's own shell complete? A fish or zsh at its prompt whose
/// integration is confirmed can.
pub fn live_completion_capable(shell: ShellSpec, mode: PaneMode, confirmed: bool) -> (r: bool)
    ensures
        r == (shell != ShellSpec::Bash && mode == PaneMode::ShellPromptEditor && confirmed),
{
    (match shell {
        ShellSpec::Fish => true,
        ShellSpec::Zsh => true,
        ShellSpec::Bash => false,
    }) && mode == PaneMode::ShellPromptEditor && confirmed
}

/// How a request for completions is served.
#[derive(Debug, Clone, Copy, PartialEq, Eq, Structural)]
pub enum CompletionRoute {
    /// By the pane's own shell.
    Live,
    /// By a program that is run in the pane's directory.
    Engine,
    /// Not at all: the directory is not known.
    Nowhere,
}

/// How a request is served.
pub open spec fn route(tool: DriverTool, capable: bool, cwd_known: bool) -> CompletionRoute {
    if tool != DriverTool::Program && capable {
        CompletionRoute::Live
    } else if cwd_known {
        CompletionRoute::Engine
    } else {
        CompletionRoute::Nowhere
    }
}

/// Decides how a request for completions is served.
pub fn completion_driver_request(tool: DriverTool, capable: bool, cwd_known: bool) -> (r:
    CompletionRoute)
    ensures
        r == route(tool, capable, cwd_known),
{
    if tool != DriverTool::Program && capable {
        CompletionRoute::Live
    } else if cwd_known {
        CompletionRoute::Engine
    } else {
        CompletionRoute::Nowhere
    }
}

// ---- laws --------------------------------------------------------------

/// An answer to a request that was given up changes nothing: after a new request
/// was begun and sent, an answer with any other number is dropped.
pub proof fn law_late_answer_is_dropped(
    v: LiveView,
    tool: DriverTool,
    now_ms: i64,
    id: u64,
    lines: Seq<Seq<char>>,
)
    requires
        id != v.next_id,
    ensures
        live_answered(live_sent(live_begun(v), v.next_id, tool, now_ms), id, lines) == live_sent(
            live_begun(v),
            v.next_id,
            tool,
            now_ms,
        ),
{
}

/// The answer to a request comes back under the tool that asked, once.
pub proof fn law_answer_comes_back(
    v: LiveView,
    tool: DriverTool,
    now_ms: i64,
    lines: Seq<Seq<char>>,
    again: Seq<Seq<char>>,
)
    ensures
        ({
            let waiting = live_sent(live_begun(v), v.next_id, tool, now_ms);
            let answered = live_answered(waiting, v.next_id, lines);
            &&& answered.response == Some(ReplyView { tool, lines })
            &&& answered.in_flight is None
            &&& live_answered(answered, v.next_id, again) == answered
        }),
{
}

/// A request that could not be sent leaves nothing waiting, so that no answer
/// and no timeout changes anything.
pub proof fn law_unsent_request_waits_for_nothing(
    v: LiveView,
    id: u64,
    lines: Seq<Seq<char>>,
    now_ms: i64,
)
    ensures
        live_answered(live_begun(v), id, lines) == live_begun(v),
        live_ticked(live_begun(v), now_ms) == live_begun(v),
{
}

/// Whatever the shell does, a request is answered at the deadline and not before.
pub proof fn law_deadline_answers_the_request(
    v: LiveView,
    tool: DriverTool,
    sent_ms: i64,
    now_ms: i64,
)
    ensures
        ({
            let waiting = live_sent(live_begun(v), v.next_id, tool, sent_ms);
            if now_ms >= sent_ms + LIVE_COMPLETION_TIMEOUT_MS {
                live_ticked(waiting, now_ms).response == Some(
                    ReplyView { tool, lines: Seq::empty() },
                )
            } else {
                live_ticked(waiting, now_ms) == waiting
            }
        }),
{
}

/// Requests are numbered one after the other, so that the answer to one is never
/// taken for that to the next; to begin one gives up the one before it and keeps an
/// answer that is there.
pub proof fn law_requests_are_numbered(v: LiveView)
    ensures
        live_begun(v).next_id != v.next_id,
        v.next_id < u64::MAX ==> live_begun(v).next_id == v.next_id + 1,
        v.next_id == u64::MAX ==> live_begun(v).next_id == 0,
        live_begun(v).in_flight is None,
        live_begun(v).response == v.response,
        no_requests().next_id == 0,
        no_requests().in_flight is None,
        no_requests().response is None,
{
}

/// A request that was sent waits under its number, its tool and its time; an answer
/// that nobody has taken yet stays.
pub proof fn law_sent_request_waits(v: LiveView, id: u64, tool: DriverTool, now_ms: i64)
    ensures
        ({
            let w = live_sent(v, id, tool, now_ms);
            &&& w.in_flight is Some
            &&& w.in_flight.unwrap().id == id
            &&& w.in_flight.unwrap().tool == tool
            &&& w.in_flight.unwrap().sent_ms == now_ms
            &&& w.response == v.response
            &&& w.next_id == v.next_id
        }),
{
}

/// The shell has 600 milliseconds from the time that a request was sent. Then it is
/// answered with no lines, under the tool that asked.
pub proof fn law_shell_has_600_ms(v: LiveView, f: LiveCompletion, now_ms: i64)
    requires
        v.in_flight == Some(f),
    ensures
        now_ms - f.sent_ms < 600 ==> live_ticked(v, now_ms) == v,
        now_ms - f.sent_ms >= 600 ==> {
            let w = live_ticked(v, now_ms);
            &&& w.in_flight is None
            &&& w.response is Some
            &&& w.response.unwrap().tool == f.tool
            &&& w.response.unwrap().lines.len() == 0
            &&& w.next_id == v.next_id
        },
{
}

/// Whoever can be asked is asked: the pane's own shell for its own completions, where
/// it can answer; else a program, where the directory is known; else nobody.
pub proof fn law_requests_go_where_they_can(tool: DriverTool, capable: bool, cwd_known: bool)
    ensures
        route(tool, capable, cwd_known) == CompletionRoute::Live <==> capable && (tool
            == DriverTool::FishComplete || tool == DriverTool::ZshComplete),
        route(tool, capable, cwd_known) == CompletionRoute::Nowhere <==> !cwd_known && (!capable
            || tool == DriverTool::Program),
        route(DriverTool::Program, capable, true) == CompletionRoute::Engine,
        route(tool, false, true) == CompletionRoute::Engine,
{
}

/// An answer is what its fields say, line by line, and so are the requests of a pane.
pub proof fn law_answers_are_what_they_say(r: LiveReply, live: LiveCompletions)
    ensures
        ({
            let v = reply_view(Some(r));
            &&& v is Some
            &&& v.unwrap().tool == r.tool
            &&& v.unwrap().lines.len() == r.lines@.len()
            &&& forall|i: int|
                0 <= i < r.lines@.len() ==> #[trigger] v.unwrap().lines[i] == r.lines@[i]@
        }),
        reply_view(None) is None,
        live@.in_flight == live.in_flight,
        live@.next_id == live.next_id,
        live@.response == reply_view(live.response),
{
}

/// The pane's own shell completes where it is fish or zsh, at its prompt, with its
/// integration confirmed.
pub proof fn law_which_shells_complete(shell: ShellSpec, mode: PaneMode, confirmed: bool, r: bool)
    requires
        call_ensures(live_completion_capable, (shell, mode, confirmed), r),
    ensures
        r <==> confirmed && mode == PaneMode::ShellPromptEditor && (shell == ShellSpec::Fish || shell
            == ShellSpec::Zsh),
{
}

} // verus!
