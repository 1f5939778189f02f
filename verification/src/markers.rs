//! Shell-integration lifecycle messages.
//!
//! The integration scripts emit one message at a time as a device control
//! string whose body is the word `Termica`, a semicolon and a JSON object:
//!
//! ```text
//! ESC P Termica;{"type":"...","session":"...","value":...} ESC \
//! ```
//!
//! Anything else (another program's control string, a malformed payload, a
//! message type that is not known) is no message.

use vstd::prelude::*;
use vstd::utf8::{decode_utf8, valid_utf8};

use crate::json::{
    copy_texts, find_member, json_value, member_value, members_view, parse_json, strings_view,
    texts_of, Json, JsonView, Member, MemberView,
};
use crate::text::{numeral_value, parse_i32, same_text, starts_with, utf8_text};

verus! {

/// The shells that an `integration_ready` message may name.
#[derive(Debug, Clone, Copy, PartialEq, Eq, Structural)]
pub enum ShellKind {
    Bash,
    Zsh,
    Fish,
    /// Some other shell.
    Unknown,
}

/// One lifecycle message of the integration script.
#[derive(Debug, PartialEq, Eq)]
pub enum LifecycleEvent {
    /// The bootstrap completed.
    IntegrationReady { shell: ShellKind, version: u32 },
    /// The bootstrap found a problem and gave up.
    IntegrationError { reason: String },
    /// The shell is about to run a command.
    Preexec { command: String },
    /// The names of the shell's variables.
    ShellVars { names: Vec<String> },
    /// The foreground command returned.
    CommandFinished { exit: i32 },
    /// The shell is about to draw the next prompt.
    Precmd { cwd: String },
    /// The working directory changed outside the prompt cycle.
    Cwd { cwd: String },
    /// Open-ended prompt metadata.
    PromptVars { vars: Vec<Member> },
    /// The input was cancelled before it ran.
    CommandAborted { reason: String },
    /// The shell waits for the rest of an incomplete command.
    Continuation,
    /// The answer to completion request `id`.
    Completion { id: u64, lines: Vec<String> },
}

/// A lifecycle message, as mathematics.
pub enum EventView {
    IntegrationReady { shell: ShellKind, version: u32 },
    IntegrationError { reason: Seq<char> },
    Preexec { command: Seq<char> },
    ShellVars { names: Seq<Seq<char>> },
    CommandFinished { exit: i32 },
    Precmd { cwd: Seq<char> },
    Cwd { cwd: Seq<char> },
    PromptVars { vars: Seq<MemberView> },
    CommandAborted { reason: Seq<char> },
    Continuation,
    Completion { id: u64, lines: Seq<Seq<char>> },
}

impl View for LifecycleEvent {
    type V = EventView;

    open spec fn view(&self) -> EventView {
        match *self {
            LifecycleEvent::IntegrationReady { shell, version } => EventView::IntegrationReady {
                shell,
                version,
            },
            LifecycleEvent::IntegrationError { reason } => EventView::IntegrationError {
                reason: reason@,
            },
            LifecycleEvent::Preexec { command } => EventView::Preexec { command: command@ },
            LifecycleEvent::ShellVars { names } => EventView::ShellVars {
                names: strings_view(names@),
            },
            LifecycleEvent::CommandFinished { exit } => EventView::CommandFinished { exit },
            LifecycleEvent::Precmd { cwd } => EventView::Precmd { cwd: cwd@ },
            LifecycleEvent::Cwd { cwd } => EventView::Cwd { cwd: cwd@ },
            LifecycleEvent::PromptVars { vars } => EventView::PromptVars {
                vars: members_view(vars@),
            },
            LifecycleEvent::CommandAborted { reason } => EventView::CommandAborted {
                reason: reason@,
            },
            LifecycleEvent::Continuation => EventView::Continuation,
            LifecycleEvent::Completion { id, lines } => EventView::Completion {
                id,
                lines: strings_view(lines@),
            },
        }
    }
}

/// The shell of a given name.
pub open spec fn shell_kind(name: Seq<char>) -> ShellKind {
    if name == "bash"@ {
        ShellKind::Bash
    } else if name == "zsh"@ {
        ShellKind::Zsh
    } else if name == "fish"@ {
        ShellKind::Fish
    } else {
        ShellKind::Unknown
    }
}

/// The shell of a given name.
fn shell_named(name: &str) -> (r: ShellKind)
    ensures
        r == shell_kind(name@),
{
    if same_text(name, "bash") {
        ShellKind::Bash
    } else if same_text(name, "zsh") {
        ShellKind::Zsh
    } else if same_text(name, "fish") {
        ShellKind::Fish
    } else {
        ShellKind::Unknown
    }
}

/// The `integration_ready` message with a given value.
pub open spec fn ready_event(value: Option<JsonView>) -> Option<EventView> {
    match value {
        Some(JsonView::Object(v)) => match member_value(v, "shell"@) {
            Some(JsonView::Text(name)) => match member_value(v, "version"@) {
                Some(JsonView::Unsigned(n)) => Some(
                    EventView::IntegrationReady {
                        shell: shell_kind(name),
                        version: (n % 0x1_0000_0000) as u32,
                    },
                ),
                _ => None,
            },
            _ => None,
        },
        _ => None,
    }
}

/// The exit code that a `command_finished` value gives: an integer, cut to 32
/// bits, or its numeral.
pub open spec fn exit_code(value: Option<JsonView>) -> Option<i32> {
    match value {
        Some(JsonView::Text(s)) => match numeral_value(s) {
            Some(v) if i32::MIN <= v <= i32::MAX => Some(v as i32),
            _ => None,
        },
        Some(v) => match v.as_i64() {
            Some(n) => Some(#[verifier::truncate] (n as i32)),
            None => None,
        },
        None => None,
    }
}

/// The text of a value, where it is one.
pub open spec fn value_text(value: Option<JsonView>) -> Option<Seq<char>> {
    match value {
        Some(v) => v.text(),
        None => None,
    }
}

/// The message of a given type with given members.
pub open spec fn typed_event(kind: Seq<char>, members: Seq<MemberView>) -> Option<EventView> {
    let value = member_value(members, "value"@);
    if kind == "integration_ready"@ {
        ready_event(value)
    } else if kind == "integration_error"@ {
        match value_text(value) {
            Some(reason) => Some(EventView::IntegrationError { reason }),
            None => None,
        }
    } else if kind == "preexec"@ {
        match value_text(value) {
            Some(command) => Some(EventView::Preexec { command }),
            None => None,
        }
    } else if kind == "shell_vars"@ {
        match value {
            Some(JsonView::Array(a)) => Some(EventView::ShellVars { names: texts_of(a) }),
            _ => None,
        }
    } else if kind == "command_finished"@ {
        match exit_code(value) {
            Some(exit) => Some(EventView::CommandFinished { exit }),
            None => None,
        }
    } else if kind == "precmd"@ {
        match value_text(value) {
            Some(cwd) => Some(EventView::Precmd { cwd }),
            None => None,
        }
    } else if kind == "cwd"@ {
        match value_text(value) {
            Some(cwd) => Some(EventView::Cwd { cwd }),
            None => None,
        }
    } else if kind == "prompt_vars"@ {
        match value {
            Some(JsonView::Object(vars)) => Some(EventView::PromptVars { vars }),
            _ => None,
        }
    } else if kind == "command_aborted"@ {
        match value_text(value) {
            Some(reason) => Some(EventView::CommandAborted { reason }),
            None => None,
        }
    } else if kind == "continuation"@ {
        Some(EventView::Continuation)
    } else if kind == "completion"@ {
        match (member_value(members, "id"@), value) {
            (Some(JsonView::Unsigned(id)), Some(JsonView::Array(a))) => Some(
                EventView::Completion { id, lines: texts_of(a) },
            ),
            _ => None,
        }
    } else {
        None
    }
}

/// The lifecycle message that a JSON value is, if it is one.
pub open spec fn message_event(v: JsonView) -> Option<EventView> {
    match v {
        JsonView::Object(members) => match member_value(members, "type"@) {
            Some(JsonView::Text(kind)) => typed_event(kind, members),
            _ => None,
        },
        _ => None,
    }
}

/// The view of an optional message.
pub open spec fn event_view(e: Option<LifecycleEvent>) -> Option<EventView> {
    match e {
        Some(e) => Some(e@),
        None => None,
    }
}

/// The text of an optional value.
fn text_of<'a>(value: Option<&'a Json>) -> (r: Option<String>)
    ensures
        match value {
            Some(v) => match r {
                Some(s) => v@.text() == Some(s@),
                None => v@.text() is None,
            },
            None => r is None,
        },
{
    match value {
        Some(v) => match v.as_str() {
            Some(s) => Some(s.to_owned()),
            None => None,
        },
        None => None,
    }
}

/// Copies members.
fn copy_members(members: &Vec<Member>) -> (r: Vec<Member>)
    ensures
        members_view(r@) == members_view(members@),
{
    let mut out: Vec<Member> = Vec::new();
    let mut i: usize = 0;
    while i < members.len()
        invariant
            i <= members@.len(),
            out@.len() == i,
            forall|k: int| 0 <= k < i ==> (#[trigger] out@[k])@ == members@[k]@,
        decreases members@.len() - i,
    {
        out.push(Member { key: members[i].key.clone(), value: members[i].value.copy() });
        i += 1;
    }
    assert(members_view(out@) =~= members_view(members@));
    out
}

/// The `integration_ready` message with a given value.
fn parse_ready(value: Option<&Json>) -> (r: Option<LifecycleEvent>)
    ensures
        event_view(r) == ready_event(
            match value {
                Some(v) => Some(v@),
                None => None,
            },
        ),
{
    let members = match value {
        Some(v) => match v.as_object() {
            Some(m) => m,
            None => return None,
        },
        None => return None,
    };
    let name = match find_member(members, "shell") {
        Some(v) => match v.as_str() {
            Some(s) => s,
            None => return None,
        },
        None => return None,
    };
    let version: u64 = match find_member(members, "version") {
        Some(v) => match v.as_u64() {
            Some(n) => n,
            None => return None,
        },
        None => return None,
    };
    Some(
        LifecycleEvent::IntegrationReady {
            shell: shell_named(name),
            version: (version % 0x1_0000_0000u64) as u32,
        },
    )
}

/// The exit code that a `command_finished` value gives.
fn parse_exit(value: Option<&Json>) -> (r: Option<i32>)
    ensures
        r == exit_code(
            match value {
                Some(v) => Some(v@),
                None => None,
            },
        ),
{
    match value {
        Some(v) => match v {
            Json::Text(s) => parse_i32(s.as_str()),
            _ => match v.as_i64() {
                Some(n) => Some(#[verifier::truncate] (n as i32)),
                None => None,
            },
        },
        None => None,
    }
}

/// Reads a JSON value as a lifecycle message.
pub fn parse_message(value: &Json) -> (r: Option<LifecycleEvent>)
    ensures
        event_view(r) == message_event(value@),
{
    let members = match value.as_object() {
        Some(m) => m,
        None => return None,
    };
    let kind = match find_member(members, "type") {
        Some(v) => match v.as_str() {
            Some(s) => s,
            None => return None,
        },
        None => return None,
    };
    let value = find_member(members, "value");
    if same_text(kind, "integration_ready") {
        parse_ready(value)
    } else if same_text(kind, "integration_error") {
        match text_of(value) {
            Some(reason) => Some(LifecycleEvent::IntegrationError { reason }),
            None => None,
        }
    } else if same_text(kind, "preexec") {
        match text_of(value) {
            Some(command) => Some(LifecycleEvent::Preexec { command }),
            None => None,
        }
    } else if same_text(kind, "shell_vars") {
        match value {
            Some(v) => match v.as_array() {
                Some(a) => Some(LifecycleEvent::ShellVars { names: copy_texts(a) }),
                None => None,
            },
            None => None,
        }
    } else if same_text(kind, "command_finished") {
        match parse_exit(value) {
            Some(exit) => Some(LifecycleEvent::CommandFinished { exit }),
            None => None,
        }
    } else if same_text(kind, "precmd") {
        match text_of(value) {
            Some(cwd) => Some(LifecycleEvent::Precmd { cwd }),
            None => None,
        }
    } else if same_text(kind, "cwd") {
        match text_of(value) {
            Some(cwd) => Some(LifecycleEvent::Cwd { cwd }),
            None => None,
        }
    } else if same_text(kind, "prompt_vars") {
        match value {
            Some(v) => match v.as_object() {
                Some(vars) => Some(LifecycleEvent::PromptVars { vars: copy_members(vars) }),
                None => None,
            },
            None => None,
        }
    } else if same_text(kind, "command_aborted") {
        match text_of(value) {
            Some(reason) => Some(LifecycleEvent::CommandAborted { reason }),
            None => None,
        }
    } else if same_text(kind, "continuation") {
        Some(LifecycleEvent::Continuation)
    } else if same_text(kind, "completion") {
        let id: u64 = match find_member(members, "id") {
            Some(v) => match v.as_u64() {
                Some(n) => n,
                None => return None,
            },
            None => return None,
        };
        match value {
            Some(v) => match v.as_array() {
                Some(a) => Some(LifecycleEvent::Completion { id, lines: copy_texts(a) }),
                None => None,
            },
            None => None,
        }
    } else {
        None
    }
}

/// What a control string's body starts with: `Termica;`.
pub const DCS_PREFIX: [u8; 8] = [0x54, 0x65, 0x72, 0x6d, 0x69, 0x63, 0x61, 0x3b];

/// The lifecycle message that the body of a control string carries, if any.
pub open spec fn dcs_event(body: Seq<u8>) -> Option<EventView> {
    if !starts_with(body, DCS_PREFIX@) {
        None
    } else if !valid_utf8(body.skip(8)) {
        None
    } else {
        match json_value(decode_utf8(body.skip(8))) {
            Some(v) => message_event(v),
            None => None,
        }
    }
}

/// Reads the body of a control string (the bytes between `ESC P` and
/// `ESC \`) as a lifecycle message.
pub fn parse_dcs_body(body: &[u8]) -> (r: Option<LifecycleEvent>)
    ensures
        event_view(r) == dcs_event(body@),
{
    if body.len() < 8 {
        return None;
    }
    let mut i: usize = 0;
    while i < 8
        invariant
            i <= 8 <= body@.len(),
            forall|k: int| 0 <= k < i ==> body@[k] == DCS_PREFIX@[k],
        decreases 8 - i,
    {
        if body[i] != DCS_PREFIX[i] {
            assert(body@.subrange(0, 8)[i as int] != DCS_PREFIX@[i as int]);
            return None;
        }
        i += 1;
    }
    assert(body@.subrange(0, 8) =~= DCS_PREFIX@);
    let rest = vstd::slice::slice_subrange(body, 8, body.len());
    assert(rest@ =~= body@.skip(8));
    match utf8_text(rest) {
        Some(text) => match parse_json(text.as_str()) {
            Some(v) => parse_message(&v),
            None => None,
        },
        None => None,
    }
}

/// A control string that does not start with the prefix carries no message:
/// other programs' control strings are never taken for the script's.
pub proof fn law_foreign_control_strings_are_ignored(body: Seq<u8>)
    requires
        !starts_with(body, DCS_PREFIX@),
    ensures
        dcs_event(body) is None,
{
}

/// A completion reply that names no request is dropped.
pub proof fn law_completion_needs_an_id(members: Seq<MemberView>)
    requires
        member_value(members, "type"@) == Some(JsonView::Text("completion"@)),
        !(member_value(members, "id"@) matches Some(JsonView::Unsigned(_))),
    ensures
        message_event(JsonView::Object(members)) is None,
{
    reveal_strlit("completion");
    reveal_strlit("integration_ready");
    reveal_strlit("integration_error");
    reveal_strlit("preexec");
    reveal_strlit("shell_vars");
    reveal_strlit("command_finished");
    reveal_strlit("precmd");
    reveal_strlit("cwd");
    reveal_strlit("prompt_vars");
    reveal_strlit("command_aborted");
    reveal_strlit("continuation");
    let k = "completion"@;
    assert(k[1] == 'o' && k.len() == 10);
    assert("continuation"@.len() == 12);
}

/// The types of messages are eleven different words.
proof fn lemma_types_differ()
    ensures
        "integration_ready"@ != "integration_error"@,
        "integration_ready"@.len() == 17,
        "integration_error"@.len() == 17,
        "preexec"@.len() == 7,
        "shell_vars"@.len() == 10,
        "command_finished"@.len() == 16,
        "precmd"@.len() == 6,
        "cwd"@.len() == 3,
        "prompt_vars"@.len() == 11,
        "command_aborted"@.len() == 15,
        "continuation"@.len() == 12,
        "completion"@.len() == 10,
        "completion"@ != "shell_vars"@,
{
    reveal_strlit("integration_ready");
    reveal_strlit("integration_error");
    reveal_strlit("preexec");
    reveal_strlit("shell_vars");
    reveal_strlit("command_finished");
    reveal_strlit("precmd");
    reveal_strlit("cwd");
    reveal_strlit("prompt_vars");
    reveal_strlit("command_aborted");
    reveal_strlit("continuation");
    reveal_strlit("completion");
    assert("integration_ready"@[12] != "integration_error"@[12]);
    assert("completion"@[0] != "shell_vars"@[0]);
}

/// The messages that carry a text: the command that starts, the directory of a prompt,
/// a directory, and the reasons of an error and of a command that was called off. Each
/// carries the text whole, and is no message where its value is no text.
pub proof fn law_texts_of_messages(members: Seq<MemberView>, kind: Seq<char>)
    requires
        member_value(members, "type"@) == Some(JsonView::Text(kind)),
    ensures
        ({
            let e = message_event(JsonView::Object(members));
            match member_value(members, "value"@) {
                Some(JsonView::Text(t)) => {
                    &&& kind == "preexec"@ ==> e == Some(EventView::Preexec { command: t })
                    &&& kind == "precmd"@ ==> e == Some(EventView::Precmd { cwd: t })
                    &&& kind == "cwd"@ ==> e == Some(EventView::Cwd { cwd: t })
                    &&& kind == "integration_error"@ ==> e == Some(
                        EventView::IntegrationError { reason: t },
                    )
                    &&& kind == "command_aborted"@ ==> e == Some(
                        EventView::CommandAborted { reason: t },
                    )
                },
                _ => kind == "preexec"@ || kind == "precmd"@ || kind == "cwd"@ || kind
                    == "integration_error"@ || kind == "command_aborted"@ ==> e is None,
            }
        }),
{
    lemma_types_differ();
}

/// The messages that carry a list of texts: the names of variables, and the answer to
/// a request, which also carries the number of that request.
pub proof fn law_lists_of_messages(
    members: Seq<MemberView>,
    kind: Seq<char>,
    texts: Seq<Seq<char>>,
    id: u64,
)
    requires
        member_value(members, "type"@) == Some(JsonView::Text(kind)),
        member_value(members, "value"@) == Some(
            JsonView::Array(texts.map_values(|s: Seq<char>| JsonView::Text(s))),
        ),
    ensures
        ({
            let e = message_event(JsonView::Object(members));
            &&& kind == "shell_vars"@ ==> e == Some(EventView::ShellVars { names: texts })
            &&& kind == "completion"@ && member_value(members, "id"@) == Some(
                JsonView::Unsigned(id),
            ) ==> e == Some(EventView::Completion { id, lines: texts })
        }),
{
    lemma_types_differ();
    crate::json::law_array_of_texts(texts);
}

/// The end of a command carries its exit code: the number itself or its numeral, where
/// 32 bits hold it.
pub proof fn law_exit_codes_of_messages(members: Seq<MemberView>, exit: i32)
    requires
        member_value(members, "type"@) == Some(JsonView::Text("command_finished"@)),
        exit >= 0 ==> (member_value(members, "value"@) == Some(JsonView::Unsigned(exit as u64))
            || member_value(members, "value"@) == Some(
            JsonView::Text(crate::text::decimal_int(exit as int)),
        )),
        exit < 0 ==> (member_value(members, "value"@) == Some(JsonView::Negative(exit as i64))
            || member_value(members, "value"@) == Some(
            JsonView::Text(crate::text::decimal_int(exit as int)),
        )),
    ensures
        message_event(JsonView::Object(members)) == Some(EventView::CommandFinished { exit }),
{
    lemma_types_differ();
    crate::text::lemma_decimal_int_value(exit as int);
}

/// A number that 32 bits do not hold is cut to its lowest 32 bits; a value that is
/// neither an integer of 64 bits nor a numeral of 32 gives no message.
pub proof fn law_long_exit_codes_are_cut(members: Seq<MemberView>, v: Option<JsonView>)
    requires
        member_value(members, "type"@) == Some(JsonView::Text("command_finished"@)),
        member_value(members, "value"@) == v,
    ensures
        ({
            let e = message_event(JsonView::Object(members));
            match v {
                Some(JsonView::Unsigned(n)) => if n <= i64::MAX {
                    e matches Some(EventView::CommandFinished { exit }) && (n - exit) % 0x1_0000_0000
                        == 0
                } else {
                    e is None
                },
                Some(JsonView::Negative(n)) => e matches Some(EventView::CommandFinished { exit })
                    && (n - exit) % 0x1_0000_0000 == 0,
                Some(JsonView::Text(s)) => e is Some ==> numeral_value(s) is Some,
                _ => e is None,
            }
        }),
{
    lemma_types_differ();
    if let Some(JsonView::Unsigned(n)) = v {
        if n <= i64::MAX {
            lemma_cut(n as i64);
        }
    }
    if let Some(JsonView::Negative(n)) = v {
        lemma_cut(n);
    }
}

/// Cutting a number to 32 bits takes off a multiple of what they count.
proof fn lemma_cut(n: i64)
    ensures
        (n - #[verifier::truncate] (n as i32)) % 0x1_0000_0000 == 0,
{
    let low: i32 = #[verifier::truncate] (n as i32);
    let wide: i64 = low as i64;
    assert((n ^ wide) & 0xffff_ffffi64 == 0) by (bit_vector)
        requires
            wide == (#[verifier::truncate] (n as i32)) as i64,
    ;
    assert(n & 0xffff_ffffi64 == wide & 0xffff_ffffi64) by (bit_vector)
        requires
            (n ^ wide) & 0xffff_ffffi64 == 0,
    ;
    lemma_low_bits(n);
    lemma_low_bits(wide);
}

/// The lowest 32 bits of a number are its rest.
proof fn lemma_low_bits(n: i64)
    ensures
        (n & 0xffff_ffffi64) as int == n as int % 0x1_0000_0000,
{
    let low: i64 = n & 0xffff_ffffi64;
    let high: i64 = n >> 32;
    assert(0 <= low < 0x1_0000_0000i64) by (bit_vector)
        requires
            low == n & 0xffff_ffffi64,
    ;
    assert(n == high * 0x1_0000_0000i64 + low && -0x8000_0000i64 <= high < 0x8000_0000i64) by (bit_vector)
        requires
            low == n & 0xffff_ffffi64,
            high == n >> 32,
    ;
    assert(n as int == high as int * 0x1_0000_0000 + low as int);
}

/// The shell that is ready is named with its version, cut to 32 bits; one whose name
/// is not known is told as such.
pub proof fn law_ready_shells(
    members: Seq<MemberView>,
    about: Seq<MemberView>,
    name: Seq<char>,
    version: u64,
)
    requires
        member_value(members, "type"@) == Some(JsonView::Text("integration_ready"@)),
        member_value(members, "value"@) == Some(JsonView::Object(about)),
        member_value(about, "shell"@) == Some(JsonView::Text(name)),
        member_value(about, "version"@) == Some(JsonView::Unsigned(version)),
    ensures
        ({
            let e = message_event(JsonView::Object(members));
            &&& e is Some
            &&& e.unwrap() is IntegrationReady
            &&& version <= u32::MAX ==> e.unwrap()->version == version
            &&& e.unwrap()->version as int == version as int % 0x1_0000_0000
            &&& e.unwrap()->shell == ShellKind::Bash <==> name == "bash"@
            &&& e.unwrap()->shell == ShellKind::Zsh <==> name == "zsh"@
            &&& e.unwrap()->shell == ShellKind::Fish <==> name == "fish"@
        }),
{
    lemma_types_differ();
    reveal_strlit("bash");
    reveal_strlit("zsh");
    reveal_strlit("fish");
    assert("bash"@[0] != "fish"@[0]);
    assert("zsh"@.len() == 3);
}

/// The metadata of a prompt comes as it is, and the wish for more of a command with
/// nothing; a type that is not known, and a value that is no object, give no message.
pub proof fn law_other_messages(
    members: Seq<MemberView>,
    kind: Seq<char>,
    vars: Seq<MemberView>,
    v: JsonView,
)
    ensures
        ({
            let e = message_event(JsonView::Object(members));
            let told = member_value(members, "type"@) == Some(JsonView::Text(kind));
            &&& told && kind == "continuation"@ ==> e == Some(EventView::Continuation)
            &&& told && kind == "prompt_vars"@ && member_value(members, "value"@) == Some(
                JsonView::Object(vars),
            ) ==> e == Some(EventView::PromptVars { vars })
            &&& told && e is Some ==> kind == "integration_ready"@ || kind
                == "integration_error"@ || kind == "preexec"@ || kind == "shell_vars"@ || kind
                == "command_finished"@ || kind == "precmd"@ || kind == "cwd"@ || kind
                == "prompt_vars"@ || kind == "command_aborted"@ || kind == "continuation"@ || kind
                == "completion"@
            &&& member_value(members, "type"@) is None ==> e is None
            &&& !(v is Object) ==> message_event(v) is None
        }),
{
    lemma_types_differ();
}

/// Behind the word `Termica` and a semicolon stands the message, as JSON in UTF-8.
pub proof fn law_message_stands_behind_the_word(body: Seq<u8>, text: Seq<u8>)
    requires
        valid_utf8(text),
        body.len() == 8 + text.len(),
        forall|i: int| 0 <= i < 8 ==> #[trigger] body[i] as char == "Termica;"@[i],
        body.skip(8) == text,
    ensures
        dcs_event(body) == (match json_value(decode_utf8(text)) {
            Some(v) => message_event(v),
            None => None,
        }),
{
    reveal_strlit("Termica;");
    assert(body[0] as char == 'T' && body[1] as char == 'e' && body[2] as char == 'r' && body[3] as char
        == 'm' && body[4] as char == 'i' && body[5] as char == 'c' && body[6] as char == 'a'
        && body[7] as char == ';');
    assert(body.subrange(0, 8) =~= DCS_PREFIX@);
}

/// A message is what its fields say.
pub proof fn law_messages_are_what_they_say(e: LifecycleEvent)
    ensures
        match e {
            LifecycleEvent::IntegrationReady { shell, version } => e@ is IntegrationReady
                && e@->shell == shell && e@->version == version,
            LifecycleEvent::IntegrationError { reason } => e@ is IntegrationError
                && e@->IntegrationError_reason == reason@,
            LifecycleEvent::Preexec { command } => e@ is Preexec && e@->command == command@,
            LifecycleEvent::ShellVars { names } => e@ is ShellVars && e@->names.len()
                == names@.len() && forall|i: int|
                0 <= i < names@.len() ==> #[trigger] e@->names[i] == names@[i]@,
            LifecycleEvent::CommandFinished { exit } => e@ is CommandFinished && e@->exit == exit,
            LifecycleEvent::Precmd { cwd } => e@ is Precmd && e@->Precmd_cwd == cwd@,
            LifecycleEvent::Cwd { cwd } => e@ is Cwd && e@->Cwd_cwd == cwd@,
            LifecycleEvent::PromptVars { vars } => e@ is PromptVars && e@->vars.len()
                == vars@.len() && forall|i: int|
                0 <= i < vars@.len() ==> (#[trigger] e@->vars[i]).key == vars@[i].key@
                    && e@->vars[i].value == vars@[i].value@,
            LifecycleEvent::CommandAborted { reason } => e@ is CommandAborted
                && e@->CommandAborted_reason == reason@,
            LifecycleEvent::Continuation => e@ is Continuation,
            LifecycleEvent::Completion { id, lines } => e@ is Completion && e@->id == id
                && e@->lines.len() == lines@.len() && forall|i: int|
                0 <= i < lines@.len() ==> #[trigger] e@->lines[i] == lines@[i]@,
        },
{
}

/// Of a list the texts count, and a message that needs a list, an object or a number is
/// none without it.
pub proof fn law_messages_need_their_values(
    members: Seq<MemberView>,
    kind: Seq<char>,
    list: Seq<JsonView>,
    id: u64,
)
    requires
        member_value(members, "type"@) == Some(JsonView::Text(kind)),
    ensures
        ({
            let e = message_event(JsonView::Object(members));
            let value = member_value(members, "value"@);
            &&& kind == "shell_vars"@ && value == Some(JsonView::Array(list)) ==> e == Some(
                EventView::ShellVars { names: texts_of(list) },
            )
            &&& kind == "completion"@ && value == Some(JsonView::Array(list)) && member_value(
                members,
                "id"@,
            ) == Some(JsonView::Unsigned(id)) ==> e == Some(
                EventView::Completion { id, lines: texts_of(list) },
            )
            &&& (kind == "shell_vars"@ || kind == "completion"@) && !(value matches Some(
                JsonView::Array(_),
            )) ==> e is None
            &&& (kind == "prompt_vars"@ || kind == "integration_ready"@) && !(value matches Some(
                JsonView::Object(_),
            )) ==> e is None
            &&& kind == "integration_ready"@ && (value matches Some(JsonView::Object(about)) && (!(
            member_value(about, "shell"@) matches Some(JsonView::Text(_))) || !(member_value(
                about,
                "version"@,
            ) matches Some(JsonView::Unsigned(_))))) ==> e is None
            &&& kind == "command_finished"@ && (value matches Some(JsonView::Text(s)) && (
            numeral_value(s) is None || numeral_value(s).unwrap() > i32::MAX || numeral_value(
                s,
            ).unwrap() < i32::MIN)) ==> e is None
            &&& kind == "command_finished"@ && value is None ==> e is None
        }),
{
    lemma_types_differ();
}

} // verus!
