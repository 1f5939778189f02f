//! The pull request of a pane's branch: its number and the rolled-up state of
//! its checks.

use vstd::prelude::*;

use crate::json::{elements_view, json_value, parse_json, Json, JsonView};
use crate::text::same_text;

verus! {

/// The rolled-up state of a pull request's checks.
#[derive(Debug, Clone, Copy, PartialEq, Eq, Structural)]
pub enum CiStatus {
    /// No checks are reported.
    NoChecks,
    /// Some check is still running or queued, and none failed.
    Pending,
    /// Every check succeeded, or was neutral or skipped.
    Passing,
    /// Some check failed.
    Failing,
}

/// The open pull request of a branch.
#[derive(Debug, Clone, Copy, PartialEq, Eq, Structural)]
pub struct PrContext {
    pub number: u32,
    pub ci: CiStatus,
}

/// The state of one check.
#[derive(Debug, Clone, Copy, PartialEq, Eq, Structural)]
pub enum CheckClass {
    Passing,
    Pending,
    Failing,
}

/// A field of a check that holds a text, unless the text is empty.
pub open spec fn text_field(entry: JsonView, key: Seq<char>) -> Option<Seq<char>> {
    match entry.get(key) {
        Some(JsonView::Text(s)) if s.len() > 0 => Some(s),
        _ => None,
    }
}

/// The state of one check. A finished run is judged by its conclusion, an
/// old-style status by its state; a check with neither is still running.
pub open spec fn check_class(entry: JsonView) -> CheckClass {
    match text_field(entry, "conclusion"@) {
        Some(c) => if c == "SUCCESS"@ || c == "NEUTRAL"@ || c == "SKIPPED"@ {
            CheckClass::Passing
        } else {
            CheckClass::Failing
        },
        None => match text_field(entry, "state"@) {
            Some(s) => if s == "SUCCESS"@ {
                CheckClass::Passing
            } else if s == "FAILURE"@ || s == "ERROR"@ {
                CheckClass::Failing
            } else {
                CheckClass::Pending
            },
            None => CheckClass::Pending,
        },
    }
}

/// Does some check have the given state?
pub open spec fn some_check(checks: Seq<JsonView>, class: CheckClass) -> bool {
    exists|i: int| 0 <= i < checks.len() && #[trigger] check_class(checks[i]) == class
}

/// The state of all checks: a failure beats everything, then a running check.
pub open spec fn rolled_up(checks: Seq<JsonView>) -> CiStatus {
    if checks.len() == 0 {
        CiStatus::NoChecks
    } else if some_check(checks, CheckClass::Failing) {
        CiStatus::Failing
    } else if some_check(checks, CheckClass::Pending) {
        CiStatus::Pending
    } else {
        CiStatus::Passing
    }
}

/// The pull request that a JSON value describes: an open one, with a number
/// that `u32` holds.
pub open spec fn described_pr(v: JsonView) -> Option<PrContext> {
    match v.get("state"@) {
        Some(JsonView::Text(s)) if s == "OPEN"@ => match v.get("number"@) {
            Some(JsonView::Unsigned(n)) if n <= u32::MAX => Some(
                PrContext {
                    number: n as u32,
                    ci: match v.get("statusCheckRollup"@) {
                        Some(JsonView::Array(checks)) => rolled_up(checks),
                        _ => CiStatus::NoChecks,
                    },
                },
            ),
            _ => None,
        },
        _ => None,
    }
}

/// A field of a check that holds a text, unless the text is empty.
fn field<'a>(entry: &'a Json, key: &str) -> (r: Option<&'a str>)
    ensures
        match r {
            Some(s) => text_field(entry@, key@) == Some(s@),
            None => text_field(entry@, key@) is None,
        },
{
    match entry.get(key) {
        Some(v) => match v.as_str() {
            Some(s) => if s.is_empty() {
                None
            } else {
                Some(s)
            },
            None => None,
        },
        None => None,
    }
}

/// The state of one check.
pub fn classify(entry: &Json) -> (r: CheckClass)
    ensures
        r == check_class(entry@),
{
    if let Some(c) = field(entry, "conclusion") {
        if same_text(c, "SUCCESS") || same_text(c, "NEUTRAL") || same_text(c, "SKIPPED") {
            return CheckClass::Passing;
        }
        return CheckClass::Failing;
    }
    if let Some(s) = field(entry, "state") {
        if same_text(s, "SUCCESS") {
            return CheckClass::Passing;
        }
        if same_text(s, "FAILURE") || same_text(s, "ERROR") {
            return CheckClass::Failing;
        }
        return CheckClass::Pending;
    }
    CheckClass::Pending
}

/// The state of all checks.
pub fn rollup_ci(checks: &Vec<Json>) -> (r: CiStatus)
    ensures
        r == rolled_up(elements_view(checks@)),
{
    let ghost all = elements_view(checks@);
    if checks.len() == 0 {
        return CiStatus::NoChecks;
    }
    let mut any_pending = false;
    let mut i: usize = 0;
    while i < checks.len()
        invariant
            i <= checks@.len(),
            checks@.len() > 0,
            all == elements_view(checks@),
            any_pending == (exists|k: int|
                0 <= k < i && #[trigger] check_class(all[k]) == CheckClass::Pending),
            forall|k: int| 0 <= k < i ==> #[trigger] check_class(all[k]) != CheckClass::Failing,
        decreases checks@.len() - i,
    {
        assert(all[i as int] == checks@[i as int]@);
        match classify(&checks[i]) {
            CheckClass::Failing => {
                assert(check_class(all[i as int]) == CheckClass::Failing);
                return CiStatus::Failing;
            },
            CheckClass::Pending => {
                any_pending = true;
                assert(check_class(all[i as int]) == CheckClass::Pending);
            },
            CheckClass::Passing => {},
        }
        i += 1;
    }
    if any_pending {
        CiStatus::Pending
    } else {
        CiStatus::Passing
    }
}

/// The pull request that a JSON value describes.
pub fn pr_from_json(v: &Json) -> (r: Option<PrContext>)
    ensures
        r == described_pr(v@),
{
    match v.get("state") {
        Some(state) => match state.as_str() {
            Some(s) => if !same_text(s, "OPEN") {
                return None;
            },
            None => return None,
        },
        None => return None,
    }
    let number: u64 = match v.get("number") {
        Some(n) => match n.as_u64() {
            Some(n) => n,
            None => return None,
        },
        None => return None,
    };
    if number > u32::MAX as u64 {
        return None;
    }
    let ci = match v.get("statusCheckRollup") {
        Some(checks) => match checks.as_array() {
            Some(a) => rollup_ci(a),
            None => CiStatus::NoChecks,
        },
        None => CiStatus::NoChecks,
    };
    Some(PrContext { number: number as u32, ci })
}

/// Reads the output of `gh pr view --json number,state,statusCheckRollup`.
/// `None` where it is not JSON, has no number, or the pull request is not
/// open.
pub fn parse_pr_view(json: &str) -> (r: Option<PrContext>)
    ensures
        r == (match json_value(json@) {
            Some(v) => described_pr(v),
            None => None,
        }),
{
    match parse_json(json) {
        Some(v) => pr_from_json(&v),
        None => None,
    }
}

/// One failed check makes the whole failing, whatever the others say.
pub proof fn law_any_failure_dominates(checks: Seq<JsonView>, i: int)
    requires
        0 <= i < checks.len(),
        check_class(checks[i]) == CheckClass::Failing,
    ensures
        rolled_up(checks) == CiStatus::Failing,
{
}

/// The order of the checks does not matter.
pub proof fn law_rollup_ignores_order(a: Seq<JsonView>, b: Seq<JsonView>)
    requires
        a.len() == b.len(),
        forall|i: int| 0 <= i < a.len() ==> b.contains(#[trigger] a[i]),
        forall|i: int| 0 <= i < b.len() ==> a.contains(#[trigger] b[i]),
    ensures
        rolled_up(a) == rolled_up(b),
{
    assert forall|class: CheckClass| some_check(a, class) == some_check(b, class) by {
        if some_check(a, class) {
            let i = choose|i: int| 0 <= i < a.len() && #[trigger] check_class(a[i]) == class;
            assert(b.contains(a[i]));
            let j = choose|j: int| 0 <= j < b.len() && b[j] == a[i];
            assert(check_class(b[j]) == class);
        }
        if some_check(b, class) {
            let i = choose|i: int| 0 <= i < b.len() && #[trigger] check_class(b[i]) == class;
            assert(a.contains(b[i]));
            let j = choose|j: int| 0 <= j < a.len() && a[j] == b[i];
            assert(check_class(a[j]) == class);
        }
    }
}

/// How one check is judged. A run that ended is judged by its conclusion: success,
/// neutral and skipped pass, everything else fails. A check without one is judged by its
/// state: success passes, failure and error fail, everything else is still running, as is
/// a check with neither.
pub proof fn law_how_a_check_is_judged(entry: JsonView, word: Seq<char>)
    ensures
        entry.get("conclusion"@) == Some(JsonView::Text(word)) && word.len() > 0 ==> {
            let passes = word == "SUCCESS"@ || word == "NEUTRAL"@ || word == "SKIPPED"@;
            check_class(entry) == (if passes {
                CheckClass::Passing
            } else {
                CheckClass::Failing
            })
        },
        (!(entry.get("conclusion"@) matches Some(JsonView::Text(_))) || entry.get("conclusion"@)
            == Some(JsonView::Text(Seq::empty()))) ==> {
            &&& entry.get("state"@) == Some(JsonView::Text("SUCCESS"@)) ==> check_class(entry)
                == CheckClass::Passing
            &&& entry.get("state"@) == Some(JsonView::Text("FAILURE"@)) ==> check_class(entry)
                == CheckClass::Failing
            &&& entry.get("state"@) == Some(JsonView::Text("ERROR"@)) ==> check_class(entry)
                == CheckClass::Failing
            &&& entry.get("state"@) == Some(JsonView::Text(word)) && word != "SUCCESS"@ && word
                != "FAILURE"@ && word != "ERROR"@ ==> check_class(entry) == CheckClass::Pending
            &&& !(entry.get("state"@) matches Some(JsonView::Text(_))) ==> check_class(entry)
                == CheckClass::Pending
        },
{
    reveal_strlit("SUCCESS");
    reveal_strlit("FAILURE");
    reveal_strlit("ERROR");
    assert("FAILURE"@[0] != "SUCCESS"@[0]);
    assert("ERROR"@.len() == 5);
}

/// How all checks together are judged: none, where there are none; failing, where one
/// fails; pending, where none fails and one still runs; and passing, where all pass.
pub proof fn law_how_all_checks_are_judged(checks: Seq<JsonView>, k: int)
    ensures
        rolled_up(checks) == CiStatus::NoChecks <==> checks.len() == 0,
        rolled_up(checks) == CiStatus::Failing <==> exists|i: int|
            0 <= i < checks.len() && #[trigger] check_class(checks[i]) == CheckClass::Failing,
        rolled_up(checks) == CiStatus::Passing <==> checks.len() > 0 && forall|i: int|
            0 <= i < checks.len() ==> #[trigger] check_class(checks[i]) == CheckClass::Passing,
        0 <= k < checks.len() && check_class(checks[k]) == CheckClass::Pending ==> rolled_up(checks)
            == CiStatus::Pending || rolled_up(checks) == CiStatus::Failing,
{
    if rolled_up(checks) == CiStatus::Passing {
        assert forall|i: int| 0 <= i < checks.len() implies #[trigger] check_class(checks[i])
            == CheckClass::Passing by {
            assert(!some_check(checks, CheckClass::Failing));
            assert(!some_check(checks, CheckClass::Pending));
        }
    }
    if checks.len() > 0 && forall|i: int|
        0 <= i < checks.len() ==> #[trigger] check_class(checks[i]) == CheckClass::Passing {
        assert(!some_check(checks, CheckClass::Failing));
        assert(!some_check(checks, CheckClass::Pending));
    }
}

/// A pull request is one that is open and has a number of 32 bits; its checks are those
/// of the list, and none where there is no list.
pub proof fn law_what_is_a_pull_request(v: JsonView, n: u64, checks: Seq<JsonView>)
    ensures
        v.get("state"@) == Some(JsonView::Text("OPEN"@)) && v.get("number"@) == Some(
            JsonView::Unsigned(n),
        ) && n <= u32::MAX ==> {
            &&& described_pr(v) is Some
            &&& described_pr(v).unwrap().number == n
            &&& v.get("statusCheckRollup"@) == Some(JsonView::Array(checks)) ==> described_pr(
                v,
            ).unwrap().ci == rolled_up(checks)
            &&& !(v.get("statusCheckRollup"@) matches Some(JsonView::Array(_))) ==> described_pr(
                v,
            ).unwrap().ci == CiStatus::NoChecks
        },
        v.get("state"@) != Some(JsonView::Text("OPEN"@)) ==> described_pr(v) is None,
        v.get("number"@) == Some(JsonView::Unsigned(n)) && n > u32::MAX ==> described_pr(v) is None,
        !(v.get("number"@) matches Some(JsonView::Unsigned(_))) ==> described_pr(v) is None,
{
}

} // verus!
