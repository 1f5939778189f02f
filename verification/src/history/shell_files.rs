//! Parsers for the history files of the shells.
//!
//! Each takes the raw bytes of a file, reads them as UTF-8 as far as they are,
//! and gives the entries in file order.

use vstd::prelude::*;

use crate::lines::{
    copy_range, newline_lines, runs_view, split_newline_lines, split_text_lines, text_lines,
};
use crate::text::{
    chars_of, chars_start_with, decimal, decimal_int, find_char, first_index, is_digit,
    is_whitespace, lemma_decimal_int_value, lemma_decimal_value, lemma_first_index, lossy_chars,
    lossy_text, numeral_value, parse_i64, starts_with, string_of, whitespace,
};

verus! {

/// One entry of a history file.
#[derive(Debug, Clone, PartialEq, Eq)]
pub struct ParsedEntry {
    /// The command, with real newlines.
    pub text: String,
    /// When it ran, in milliseconds since the epoch, where the file says so.
    pub started_at_ms: Option<i64>,
}

/// An entry, as mathematics.
pub struct EntryView {
    pub text: Seq<char>,
    pub started_at_ms: Option<i64>,
}

impl View for ParsedEntry {
    type V = EntryView;

    open spec fn view(&self) -> EntryView {
        EntryView { text: self.text@, started_at_ms: self.started_at_ms }
    }
}

/// The views of entries.
pub open spec fn entries_view(entries: Seq<ParsedEntry>) -> Seq<EntryView> {
    entries.map_values(|e: ParsedEntry| e@)
}

// ---- timestamps --------------------------------------------------------

/// A number of seconds as milliseconds, held within `i64`.
pub open spec fn to_millis(seconds: i64) -> i64 {
    if seconds * 1000 > i64::MAX {
        i64::MAX
    } else if seconds * 1000 < i64::MIN {
        i64::MIN
    } else {
        (seconds * 1000) as i64
    }
}

/// A number of seconds as milliseconds, held within `i64`.
fn millis(seconds: i64) -> (r: i64)
    ensures
        r == to_millis(seconds),
{
    if seconds > 9_223_372_036_854_775 {
        i64::MAX
    } else if seconds < -9_223_372_036_854_775 {
        i64::MIN
    } else {
        seconds * 1000
    }
}

/// The number of seconds that a text writes, where it is a numeral that `i64`
/// holds.
pub open spec fn seconds_in(s: Seq<char>) -> Option<i64> {
    match numeral_value(s) {
        Some(v) if i64::MIN <= v <= i64::MAX => Some(v as i64),
        _ => None,
    }
}

/// Seconds as milliseconds, where there are any.
pub open spec fn millis_of(seconds: Option<i64>) -> Option<i64> {
    match seconds {
        Some(s) => Some(to_millis(s)),
        None => None,
    }
}

/// The number of seconds that `s` writes.
fn read_seconds(s: &[char]) -> (r: Option<i64>)
    ensures
        r == seconds_in(s@),
{
    parse_i64(string_of(s).as_str())
}

/// Seconds as milliseconds, where there are any.
fn read_millis(seconds: Option<i64>) -> (r: Option<i64>)
    ensures
        r == millis_of(seconds),
{
    match seconds {
        Some(s) => Some(millis(s)),
        None => None,
    }
}

// ---- zsh -------------------------------------------------------------

/// The entry that a line begins. `: <seconds>:<elapsed>;<command>` carries a
/// time; any other line is the command itself.
pub open spec fn zsh_begin(line: Seq<char>) -> EntryView {
    let rest = line.skip(2);
    match first_index(rest, ';', 0) {
        Some(semi) if starts_with(line, ": "@) => {
            let stamp = rest.take(semi);
            EntryView {
                text: rest.skip(semi + 1),
                started_at_ms: match first_index(stamp, ':', 0) {
                    Some(colon) => millis_of(seconds_in(stamp.take(colon))),
                    None => None,
                },
            }
        },
        _ => EntryView { text: line, started_at_ms: None },
    }
}

/// How many of `lines` continue a command that stands at `text`: while the
/// command ends in a backslash, the next line belongs to it.
pub open spec fn zsh_continuations(text: Seq<char>, lines: Seq<Seq<char>>) -> nat
    decreases lines.len(),
{
    if lines.len() > 0 && text.len() > 0 && text.last() == '\\' {
        1 + zsh_continuations(zsh_join(text, lines[0]), lines.skip(1))
    } else {
        0
    }
}

/// A command and the line that continues it: the backslash gives way to a
/// newline.
pub open spec fn zsh_join(text: Seq<char>, line: Seq<char>) -> Seq<char> {
    text.drop_last().push('\n') + line
}

/// A command with all the lines that continue it.
pub open spec fn zsh_full(text: Seq<char>, lines: Seq<Seq<char>>) -> Seq<char>
    decreases lines.len(),
{
    if lines.len() > 0 && text.len() > 0 && text.last() == '\\' {
        zsh_full(zsh_join(text, lines[0]), lines.skip(1))
    } else {
        text
    }
}

/// The entries of a zsh history file, line by line.
pub open spec fn zsh_entries(lines: Seq<Seq<char>>) -> Seq<EntryView>
    decreases lines.len(),
{
    if lines.len() == 0 {
        Seq::empty()
    } else if lines[0].len() == 0 {
        zsh_entries(lines.skip(1))
    } else {
        let first = zsh_begin(lines[0]);
        let rest = lines.skip(1);
        proof {
            lemma_continuations_bounded(first.text, rest);
        }
        seq![
            EntryView { text: zsh_full(first.text, rest), started_at_ms: first.started_at_ms },
        ] + zsh_entries(rest.skip(zsh_continuations(first.text, rest) as int))
    }
}

/// There are no more continuations than lines.
pub proof fn lemma_continuations_bounded(text: Seq<char>, lines: Seq<Seq<char>>)
    ensures
        zsh_continuations(text, lines) <= lines.len(),
    decreases lines.len(),
{
    if lines.len() > 0 && text.len() > 0 && text.last() == '\\' {
        lemma_continuations_bounded(zsh_join(text, lines[0]), lines.skip(1));
    }
}

/// The command and the time of the entry that a line begins.
fn begin_zsh(line: &[char]) -> (r: (Vec<char>, Option<i64>))
    ensures
        zsh_begin(line@) == (EntryView { text: r.0@, started_at_ms: r.1 }),
{
    proof {
        reveal_strlit(": ");
    }
    if chars_start_with(line, ": ") {
        let rest = vstd::slice::slice_subrange(line, 2, line.len());
        assert(rest@ =~= line@.skip(2));
        if let Some(semi) = find_char(rest, ';', 0) {
            let stamp = vstd::slice::slice_subrange(rest, 0, semi);
            assert(stamp@ =~= rest@.take(semi as int));
            let command = copy_range(rest, semi + 1, rest.len());
            assert(command@ =~= rest@.skip(semi + 1));
            let started: Option<i64> = match find_char(stamp, ':', 0) {
                Some(colon) => {
                    let seconds = vstd::slice::slice_subrange(stamp, 0, colon);
                    assert(seconds@ =~= stamp@.take(colon as int));
                    read_millis(read_seconds(seconds))
                },
                None => None,
            };
            return (command, started);
        }
    }
    assert(line@.subrange(0, line@.len() as int) =~= line@);
    (copy_range(line, 0, line.len()), None)
}

/// Appends `line` to `text`.
fn append(text: &mut Vec<char>, line: &[char])
    ensures
        final(text)@ == old(text)@ + line@,
{
    let mut i: usize = 0;
    while i < line.len()
        invariant
            i <= line@.len(),
            text@ == old(text)@ + line@.take(i as int),
        decreases line@.len() - i,
    {
        text.push(line[i]);
        i += 1;
        assert(line@.take(i as int) =~= line@.take(i - 1).push(line@[i - 1]));
    }
    assert(line@.take(i as int) =~= line@);
}

/// The entries of a zsh history file whose text is given.
pub fn zsh_history_entries(text: &str) -> (out: Vec<ParsedEntry>)
    ensures
        entries_view(out@) == zsh_entries(newline_lines(text@)),
{
    let chars = chars_of(text);
    let lines = split_newline_lines(chars.as_slice());
    let ghost all = newline_lines(text@);
    let ghost goal = zsh_entries(all);
    let mut out: Vec<ParsedEntry> = Vec::new();
    let mut i: usize = 0;
    assert(all.skip(0) =~= all);
    assert(goal =~= entries_view(out@) + zsh_entries(all.skip(0)));
    while i < lines.len()
        invariant
            i <= lines@.len(),
            runs_view(lines@) == all,
            goal == entries_view(out@) + zsh_entries(all.skip(i as int)),
        decreases lines@.len() - i,
    {
        let ghost from = all.skip(i as int);
        assert(from[0] == all[i as int]);
        assert(all[i as int] == lines@[i as int]@);
        assert(from.skip(1) =~= all.skip(i + 1));
        if lines[i].len() == 0 {
            i += 1;
            continue;
        }
        let (mut command, started) = begin_zsh(lines[i].as_slice());
        let ghost first = zsh_begin(from[0]);
        let ghost rest = all.skip(i + 1);
        i += 1;
        let ghost base = i;
        assert(rest.skip(0) =~= rest);
        while i < lines.len() && command.len() > 0 && command[command.len() - 1] == '\\'
            invariant
                base <= i <= lines@.len(),
                runs_view(lines@) == all,
                rest == all.skip(base as int),
                zsh_full(first.text, rest) == zsh_full(command@, rest.skip(i - base)),
                zsh_continuations(first.text, rest) == (i - base) + zsh_continuations(
                    command@,
                    rest.skip(i - base),
                ),
            decreases lines@.len() - i,
        {
            let ghost before = command@;
            let ghost left = rest.skip(i - base);
            assert(left[0] == lines@[i as int]@);
            let _ = command.pop();
            assert(command@ =~= before.drop_last());
            command.push('\n');
            append(&mut command, lines[i].as_slice());
            assert(command@ =~= zsh_join(before, left[0]));
            assert(left.skip(1) =~= rest.skip(i - base + 1));
            i += 1;
        }
        let ghost done = out@;
        let ghost entry = EntryView { text: command@, started_at_ms: started };
        out.push(ParsedEntry { text: string_of(command.as_slice()), started_at_ms: started });
        assert(entries_view(out@) =~= entries_view(done).push(entry));
        assert(rest.skip(i - base) =~= all.skip(i as int));
        assert(zsh_continuations(first.text, rest) == i - base);
        assert(goal =~= entries_view(out@) + zsh_entries(all.skip(i as int)));
    }
    assert(all.skip(i as int) =~= Seq::empty());
    assert(goal =~= entries_view(out@));
    out
}

/// Parses zsh's `~/.zsh_history`: extended (`: <seconds>:<elapsed>;<command>`)
/// or plain lines, with a backslash before a newline inside a command.
pub fn parse_zsh_history(bytes: &[u8]) -> (out: Vec<ParsedEntry>)
    ensures
        entries_view(out@) == zsh_entries(newline_lines(lossy_chars(bytes@))),
{
    zsh_history_entries(lossy_text(bytes).as_str())
}

// ---- bash ------------------------------------------------------------

/// The time that a line `#<seconds>` announces.
pub open spec fn bash_stamp(line: Seq<char>) -> Option<i64> {
    if line.len() > 0 && line[0] == '#' {
        millis_of(seconds_in(line.skip(1)))
    } else {
        None
    }
}

/// The entries of a bash history file, line by line, where `pending` is a
/// time already announced.
pub open spec fn bash_entries(lines: Seq<Seq<char>>, pending: Option<i64>) -> Seq<EntryView>
    decreases lines.len(),
{
    if lines.len() == 0 {
        Seq::empty()
    } else if lines[0].len() == 0 {
        bash_entries(lines.skip(1), pending)
    } else if bash_stamp(lines[0]) is Some {
        bash_entries(lines.skip(1), bash_stamp(lines[0]))
    } else {
        seq![EntryView { text: lines[0], started_at_ms: pending }] + bash_entries(
            lines.skip(1),
            None,
        )
    }
}

/// The time that a line `#<seconds>` announces.
fn read_bash_stamp(line: &[char]) -> (r: Option<i64>)
    ensures
        r == bash_stamp(line@),
{
    if line.len() > 0 && line[0] == '#' {
        let rest = vstd::slice::slice_subrange(line, 1, line.len());
        assert(rest@ =~= line@.skip(1));
        read_millis(read_seconds(rest))
    } else {
        None
    }
}

/// The entries of a bash history file whose text is given.
pub fn bash_history_entries(text: &str) -> (out: Vec<ParsedEntry>)
    ensures
        entries_view(out@) == bash_entries(text_lines(text@), None),
{
    let chars = chars_of(text);
    let lines = split_text_lines(chars.as_slice());
    let ghost all = text_lines(text@);
    let ghost goal = bash_entries(all, None);
    let mut out: Vec<ParsedEntry> = Vec::new();
    let mut pending: Option<i64> = None;
    let mut i: usize = 0;
    assert(all.skip(0) =~= all);
    assert(goal =~= entries_view(out@) + bash_entries(all.skip(0), pending));
    while i < lines.len()
        invariant
            i <= lines@.len(),
            runs_view(lines@) == all,
            goal == entries_view(out@) + bash_entries(all.skip(i as int), pending),
        decreases lines@.len() - i,
    {
        let ghost from = all.skip(i as int);
        assert(from[0] == all[i as int]);
        assert(all[i as int] == lines@[i as int]@);
        assert(from.skip(1) =~= all.skip(i + 1));
        let line = lines[i].as_slice();
        i += 1;
        if line.len() == 0 {
            continue;
        }
        let stamp = read_bash_stamp(line);
        if stamp.is_some() {
            pending = stamp;
            continue;
        }
        let ghost done = out@;
        let ghost entry = EntryView { text: line@, started_at_ms: pending };
        out.push(ParsedEntry { text: string_of(line), started_at_ms: pending });
        pending = None;
        assert(entries_view(out@) =~= entries_view(done).push(entry));
        assert(goal =~= entries_view(out@) + bash_entries(all.skip(i as int), pending));
    }
    assert(all.skip(i as int) =~= Seq::empty());
    assert(goal =~= entries_view(out@));
    out
}

/// Parses bash's `~/.bash_history`: one command on each line, with
/// `#<seconds>` before it where the shell records times.
pub fn parse_bash_history(bytes: &[u8]) -> (out: Vec<ParsedEntry>)
    ensures
        entries_view(out@) == bash_entries(text_lines(lossy_chars(bytes@)), None),
{
    bash_history_entries(lossy_text(bytes).as_str())
}

// ---- fish ------------------------------------------------------------

/// A fish command with its escapes undone: `\n` writes a newline and `\\` a
/// backslash; any other backslash stands for itself.
pub open spec fn fish_unescaped(s: Seq<char>) -> Seq<char>
    decreases s.len(),
{
    if s.len() == 0 {
        Seq::empty()
    } else if s.len() >= 2 && s[0] == '\\' {
        if s[1] == 'n' {
            seq!['\n'] + fish_unescaped(s.skip(2))
        } else if s[1] == '\\' {
            seq!['\\'] + fish_unescaped(s.skip(2))
        } else {
            seq!['\\', s[1]] + fish_unescaped(s.skip(2))
        }
    } else {
        seq![s[0]] + fish_unescaped(s.skip(1))
    }
}

/// A text as fish writes it.
pub open spec fn fish_escaped(s: Seq<char>) -> Seq<char>
    decreases s.len(),
{
    if s.len() == 0 {
        Seq::empty()
    } else if s[0] == '\n' {
        seq!['\\', 'n'] + fish_escaped(s.skip(1))
    } else if s[0] == '\\' {
        seq!['\\', '\\'] + fish_escaped(s.skip(1))
    } else {
        seq![s[0]] + fish_escaped(s.skip(1))
    }
}

/// A line without leading white space.
pub open spec fn trimmed_start(s: Seq<char>) -> Seq<char>
    decreases s.len(),
{
    if s.len() > 0 && whitespace(s[0]) {
        trimmed_start(s.skip(1))
    } else {
        s
    }
}

/// The entry begun so far, with the time read for it.
pub struct FishOpen {
    pub cmd: Option<Seq<char>>,
    pub when: Option<i64>,
}

/// The entry that is complete, if a command was begun.
pub open spec fn fish_close(open: FishOpen) -> Seq<EntryView> {
    match open.cmd {
        Some(text) => seq![EntryView { text, started_at_ms: millis_of(open.when) }],
        None => Seq::empty(),
    }
}

/// The entries of a fish history file, line by line, after what is open.
/// `- cmd: ` begins an entry, `when: ` times the one begun, and every other
/// line is ignored.
pub open spec fn fish_entries(lines: Seq<Seq<char>>, open: FishOpen) -> Seq<EntryView>
    decreases lines.len(),
{
    if lines.len() == 0 {
        fish_close(open)
    } else if starts_with(lines[0], "- cmd: "@) {
        fish_close(open) + fish_entries(
            lines.skip(1),
            FishOpen { cmd: Some(fish_unescaped(lines[0].skip(7))), when: None },
        )
    } else if starts_with(trimmed_start(lines[0]), "when: "@) && open.cmd is Some {
        fish_entries(
            lines.skip(1),
            FishOpen { cmd: open.cmd, when: seconds_in(trimmed_start(lines[0]).skip(6)) },
        )
    } else {
        fish_entries(lines.skip(1), open)
    }
}

/// A fish command with its escapes undone.
pub fn unescape_fish(s: &[char]) -> (r: Vec<char>)
    ensures
        r@ == fish_unescaped(s@),
{
    let mut out: Vec<char> = Vec::new();
    let mut i: usize = 0;
    assert(s@.skip(0) =~= s@);
    assert(fish_unescaped(s@) =~= out@ + fish_unescaped(s@.skip(0)));
    while i < s.len()
        invariant
            i <= s@.len(),
            fish_unescaped(s@) == out@ + fish_unescaped(s@.skip(i as int)),
        decreases s@.len() - i,
    {
        let ghost rest = s@.skip(i as int);
        let ghost before = out@;
        if s[i] == '\\' && s.len() - i >= 2 {
            let next = s[i + 1];
            assert(rest[1] == next);
            assert(rest.skip(2) =~= s@.skip(i + 2));
            if next == 'n' {
                out.push('\n');
                assert(out@ + fish_unescaped(rest.skip(2)) =~= before + (seq!['\n']
                    + fish_unescaped(rest.skip(2))));
            } else if next == '\\' {
                out.push('\\');
                assert(out@ + fish_unescaped(rest.skip(2)) =~= before + (seq!['\\']
                    + fish_unescaped(rest.skip(2))));
            } else {
                out.push('\\');
                out.push(next);
                assert(out@ + fish_unescaped(rest.skip(2)) =~= before + (seq!['\\', next]
                    + fish_unescaped(rest.skip(2))));
            }
            i += 2;
        } else {
            out.push(s[i]);
            assert(rest.skip(1) =~= s@.skip(i + 1));
            assert(out@ + fish_unescaped(rest.skip(1)) =~= before + (seq![rest[0]]
                + fish_unescaped(rest.skip(1))));
            i += 1;
        }
    }
    assert(s@.skip(i as int) =~= Seq::empty());
    assert(out@ =~= fish_unescaped(s@));
    out
}

/// A line without leading white space.
fn trim_start<'a>(s: &'a [char]) -> (r: &'a [char])
    ensures
        r@ == trimmed_start(s@),
{
    let mut i: usize = 0;
    assert(s@.skip(0) =~= s@);
    while i < s.len() && is_whitespace(s[i])
        invariant
            i <= s@.len(),
            trimmed_start(s@) == trimmed_start(s@.skip(i as int)),
        decreases s@.len() - i,
    {
        assert(s@.skip(i as int).skip(1) =~= s@.skip(i + 1));
        i += 1;
    }
    let r = vstd::slice::slice_subrange(s, i, s.len());
    assert(r@ =~= s@.skip(i as int));
    r
}

/// Appends the entry that is complete, if a command was begun.
fn close_fish(out: &mut Vec<ParsedEntry>, cmd: Option<Vec<char>>, when: Option<i64>)
    ensures
        entries_view(final(out)@) == entries_view(old(out)@) + fish_close(
            FishOpen {
                cmd: match cmd {
                    Some(c) => Some(c@),
                    None => None,
                },
                when,
            },
        ),
{
    match cmd {
        Some(c) => {
            let ghost before = out@;
            let entry = ParsedEntry {
                text: string_of(c.as_slice()),
                started_at_ms: read_millis(when),
            };
            out.push(entry);
            assert(entries_view(out@) =~= entries_view(before) + seq![entry@]);
        },
        None => {
            assert(entries_view(out@) =~= entries_view(out@) + Seq::<EntryView>::empty());
        },
    }
}

/// The entries of a fish history file whose text is given.
pub fn fish_history_entries(text: &str) -> (out: Vec<ParsedEntry>)
    ensures
        entries_view(out@) == fish_entries(text_lines(text@), FishOpen { cmd: None, when: None }),
{
    let chars = chars_of(text);
    let lines = split_text_lines(chars.as_slice());
    let ghost all = text_lines(text@);
    let ghost mut open = FishOpen { cmd: None, when: None };
    let ghost goal = fish_entries(all, open);
    let mut out: Vec<ParsedEntry> = Vec::new();
    let mut cmd: Option<Vec<char>> = None;
    let mut when: Option<i64> = None;
    let mut i: usize = 0;
    proof {
        reveal_strlit("- cmd: ");
        reveal_strlit("when: ");
    }
    assert(all.skip(0) =~= all);
    assert(goal =~= entries_view(out@) + fish_entries(all.skip(0), open));
    while i < lines.len()
        invariant
            i <= lines@.len(),
            runs_view(lines@) == all,
            "- cmd: "@.len() == 7,
            "when: "@.len() == 6,
            open.when == when,
            open.cmd == (match cmd {
                Some(c) => Some(c@),
                None => None,
            }),
            goal == entries_view(out@) + fish_entries(all.skip(i as int), open),
        decreases lines@.len() - i,
    {
        let ghost from = all.skip(i as int);
        assert(from[0] == all[i as int]);
        assert(all[i as int] == lines@[i as int]@);
        assert(from.skip(1) =~= all.skip(i + 1));
        let line = lines[i].as_slice();
        i += 1;
        if chars_start_with(line, "- cmd: ") {
            let ghost before = entries_view(out@);
            close_fish(&mut out, cmd, when);
            let rest = vstd::slice::slice_subrange(line, 7, line.len());
            assert(rest@ =~= line@.skip(7));
            cmd = Some(unescape_fish(rest));
            when = None;
            proof {
                let next = FishOpen { cmd: Some(fish_unescaped(from[0].skip(7))), when: None };
                assert(before + (fish_close(open) + fish_entries(from.skip(1), next)) =~= (before
                    + fish_close(open)) + fish_entries(from.skip(1), next));
                open = next;
            }
            continue;
        }
        let trimmed = trim_start(line);
        if chars_start_with(trimmed, "when: ") && cmd.is_some() {
            let rest = vstd::slice::slice_subrange(trimmed, 6, trimmed.len());
            assert(rest@ =~= trimmed@.skip(6));
            when = read_seconds(rest);
            proof {
                open = FishOpen { cmd: open.cmd, when };
            }
        }
    }
    assert(all.skip(i as int) =~= Seq::empty());
    close_fish(&mut out, cmd, when);
    out
}

/// Parses fish's `fish_history`: stanzas of `- cmd: <command>` and
/// `when: <seconds>`; the `paths:` blocks are ignored.
pub fn parse_fish_history(bytes: &[u8]) -> (out: Vec<ParsedEntry>)
    ensures
        entries_view(out@) == fish_entries(
            text_lines(lossy_chars(bytes@)),
            FishOpen { cmd: None, when: None },
        ),
{
    fish_history_entries(lossy_text(bytes).as_str())
}

// ---- laws --------------------------------------------------------------

/// Undoing fish's escapes gives back the text that was escaped.
pub proof fn law_fish_escape_round_trip(s: Seq<char>)
    ensures
        fish_unescaped(fish_escaped(s)) == s,
    decreases s.len(),
{
    if s.len() > 0 {
        law_fish_escape_round_trip(s.skip(1));
        let e = fish_escaped(s);
        let tail = fish_escaped(s.skip(1));
        if s[0] == '\n' || s[0] == '\\' {
            assert(e.skip(2) =~= tail);
            assert(fish_unescaped(e) =~= seq![s[0]] + fish_unescaped(tail));
        } else {
            assert(e.skip(1) =~= tail);
            assert(fish_unescaped(e) =~= seq![s[0]] + fish_unescaped(tail));
        }
        assert(seq![s[0]] + s.skip(1) =~= s);
    }
}

/// A time at the end of a bash file, with no command after it, is dropped.
pub proof fn law_bash_orphan_time_is_dropped(
    lines: Seq<Seq<char>>,
    pending: Option<i64>,
    line: Seq<char>,
)
    requires
        bash_stamp(line) is Some,
    ensures
        bash_entries(lines.push(line), pending) == bash_entries(lines, pending),
    decreases lines.len(),
{
    let longer = lines.push(line);
    if lines.len() == 0 {
        assert(longer.skip(1) =~= Seq::empty());
        reveal_with_fuel(bash_entries, 2);
    } else {
        assert(longer.skip(1) =~= lines.skip(1).push(line));
        let next = if lines[0].len() == 0 {
            pending
        } else {
            bash_stamp(lines[0])
        };
        law_bash_orphan_time_is_dropped(lines.skip(1), next, line);
        law_bash_orphan_time_is_dropped(lines.skip(1), None, line);
    }
}

/// A fish command that no line times before the next one is kept, without a
/// time.
pub proof fn law_fish_entry_without_time_is_kept(lines: Seq<Seq<char>>, cmd: Seq<char>)
    requires
        forall|i: int|
            0 <= i < lines.len() ==> !starts_with(#[trigger] lines[i], "- cmd: "@)
                && !starts_with(trimmed_start(lines[i]), "when: "@),
    ensures
        fish_entries(lines, FishOpen { cmd: Some(cmd), when: None }) == seq![
            EntryView { text: cmd, started_at_ms: None },
        ],
    decreases lines.len(),
{
    if lines.len() > 0 {
        law_fish_entry_without_time_is_kept(lines.skip(1), cmd);
    }
}

/// The lines of a command, joined by newlines.
pub open spec fn joined(parts: Seq<Seq<char>>) -> Seq<char>
    decreases parts.len(),
{
    if parts.len() == 0 {
        Seq::empty()
    } else if parts.len() == 1 {
        parts[0]
    } else {
        parts[0].push('\n') + joined(parts.skip(1))
    }
}

/// The lines of a command as zsh writes them: each but the last with a
/// backslash at its end.
pub open spec fn zsh_escaped(parts: Seq<Seq<char>>) -> Seq<Seq<char>>
    decreases parts.len(),
{
    if parts.len() <= 1 {
        parts
    } else {
        seq![parts[0].push('\\')] + zsh_escaped(parts.skip(1))
    }
}

/// The lines after the first are joined on to what stands before them.
proof fn lemma_zsh_rejoin(prefix: Seq<char>, parts: Seq<Seq<char>>, tail: Seq<Seq<char>>)
    requires
        parts.len() > 0,
        prefix.len() == 0 || prefix.last() == '\n',
        parts.last().len() == 0 || parts.last().last() != '\\',
    ensures
        zsh_escaped(parts).len() == parts.len(),
        zsh_full(prefix + zsh_escaped(parts)[0], zsh_escaped(parts).skip(1) + tail) == prefix
            + joined(parts),
        zsh_continuations(prefix + zsh_escaped(parts)[0], zsh_escaped(parts).skip(1) + tail)
            == parts.len() - 1,
    decreases parts.len(),
{
    let lines = zsh_escaped(parts);
    let text = prefix + lines[0];
    let rest = lines.skip(1) + tail;
    if parts.len() == 1 {
        assert(text.len() > 0 ==> text.last() != '\\') by {
            if parts[0].len() > 0 {
                assert(text.last() == parts[0].last());
            } else {
                assert(text =~= prefix);
            }
        }
    } else {
        let more = zsh_escaped(parts.skip(1));
        let next = prefix + parts[0].push('\n');
        lemma_zsh_rejoin(next, parts.skip(1), tail);
        assert(lines.skip(1) =~= more);
        assert(rest[0] == more[0]);
        assert(rest.skip(1) =~= more.skip(1) + tail);
        assert(text =~= (prefix + parts[0]).push('\\'));
        assert(zsh_join(text, rest[0]) =~= next + more[0]);
        assert(next + joined(parts.skip(1)) =~= prefix + joined(parts));
    }
}

/// A command that zsh wrote over several lines, with or without a time in
/// front, comes back as one entry with real newlines.
pub proof fn law_zsh_multiline_round_trip(
    head: Seq<char>,
    parts: Seq<Seq<char>>,
    tail: Seq<Seq<char>>,
)
    requires
        parts.len() > 0,
        parts.last().len() == 0 || parts.last().last() != '\\',
        head.len() > 0,
        zsh_begin(head).text == zsh_escaped(parts)[0],
    ensures
        zsh_entries(seq![head] + zsh_escaped(parts).skip(1) + tail) == seq![
            EntryView { text: joined(parts), started_at_ms: zsh_begin(head).started_at_ms },
        ] + zsh_entries(tail),
{
    let more = zsh_escaped(parts).skip(1);
    let lines = seq![head] + more + tail;
    lemma_zsh_rejoin(Seq::empty(), parts, tail);
    assert(Seq::empty() + zsh_escaped(parts)[0] =~= zsh_escaped(parts)[0]);
    assert(Seq::empty() + joined(parts) =~= joined(parts));
    assert(lines.skip(1) =~= more + tail);
    assert((more + tail).skip(parts.len() - 1) =~= tail);
}

/// Does a line leave its command open?
pub open spec fn ends_open(line: Seq<char>) -> bool {
    line.len() > 0 && line.last() == '\\'
}

/// Lines behind a command that is closed do not belong to it.
proof fn lemma_zsh_closed(text: Seq<char>, lines: Seq<Seq<char>>, more: Seq<Seq<char>>)
    requires
        lines.len() == 0 ==> !ends_open(text),
        lines.len() > 0 ==> !ends_open(lines.last()),
    ensures
        zsh_full(text, lines + more) == zsh_full(text, lines),
        zsh_continuations(text, lines + more) == zsh_continuations(text, lines),
    decreases lines.len(),
{
    if lines.len() > 0 && ends_open(text) {
        let next = zsh_join(text, lines[0]);
        assert((lines + more)[0] == lines[0]);
        assert((lines + more).skip(1) =~= lines.skip(1) + more);
        if lines.len() == 1 {
            assert(next.last() == (if lines[0].len() > 0 {
                lines[0].last()
            } else {
                '\n'
            }));
        } else {
            assert(lines.skip(1).last() == lines.last());
        }
        lemma_zsh_closed(next, lines.skip(1), more);
    }
}

/// A command that a line begins is open only where the line is.
proof fn lemma_zsh_begin_open(line: Seq<char>)
    ensures
        ends_open(zsh_begin(line).text) ==> ends_open(line),
{
    reveal_strlit(": ");
    let rest = line.skip(2);
    lemma_first_index(rest, ';', 0);
    if let Some(semi) = first_index(rest, ';', 0) {
        if starts_with(line, ": "@) {
            let text = rest.skip(semi + 1);
            if text.len() > 0 {
                assert(text.last() == line.last());
            }
        }
    }
}

/// One history written behind another gives the entries of the first and then those of
/// the second, as long as the first does not stop in the middle of a command.
pub proof fn law_zsh_histories_concatenate(first: Seq<Seq<char>>, second: Seq<Seq<char>>)
    requires
        first.len() > 0 ==> !ends_open(first.last()),
    ensures
        zsh_entries(first + second) == zsh_entries(first) + zsh_entries(second),
    decreases first.len(),
{
    let all = first + second;
    if first.len() == 0 {
        assert(all =~= second);
        assert(zsh_entries(first) + zsh_entries(second) =~= zsh_entries(second));
    } else {
        let rest = first.skip(1);
        assert(all.skip(1) =~= rest + second);
        if rest.len() > 0 {
            assert(rest.last() == first.last());
        }
        if first[0].len() == 0 {
            law_zsh_histories_concatenate(rest, second);
        } else {
            let text = zsh_begin(first[0]).text;
            lemma_zsh_begin_open(first[0]);
            lemma_zsh_closed(text, rest, second);
            lemma_continuations_bounded(text, rest);
            let n = zsh_continuations(text, rest) as int;
            let left = rest.skip(n);
            assert((rest + second).skip(n) =~= left + second);
            if left.len() > 0 {
                assert(left.last() == first.last());
            }
            law_zsh_histories_concatenate(left, second);
            assert(zsh_entries(all) =~= zsh_entries(first) + zsh_entries(second));
        }
    }
}

/// Seconds become milliseconds: a thousand of them for each, held within `i64`.
pub proof fn law_seconds_become_milliseconds(seconds: i64)
    ensures
        -9_223_372_036_854_775 <= seconds <= 9_223_372_036_854_775 ==> to_millis(seconds) == seconds
            * 1000,
        seconds > 9_223_372_036_854_775 ==> to_millis(seconds) == i64::MAX,
        seconds < -9_223_372_036_854_775 ==> to_millis(seconds) == i64::MIN,
{
}

/// A line of a plain zsh history is a command, whole, without a time: any line that
/// does not start with a colon and a blank, and one that does but has no semicolon.
pub proof fn law_plain_zsh_line_is_the_command(line: Seq<char>)
    requires
        line.len() < 2 || line[0] != ':' || line[1] != ' ' || !line.contains(';'),
    ensures
        zsh_begin(line).text == line,
        zsh_begin(line).started_at_ms is None,
{
    reveal_strlit(": ");
    let rest = line.skip(2);
    lemma_first_index(rest, ';', 0);
    if starts_with(line, ": "@) {
        assert(line.subrange(0, 2)[0] == ": "@[0]);
        assert(line.subrange(0, 2)[1] == ": "@[1]);
        if let Some(semi) = first_index(rest, ';', 0) {
            assert(line[semi + 2] == ';');
            assert(line.contains(line[semi + 2]));
        }
    }
}

/// A line of an extended zsh history, `: <seconds>:<elapsed>;<command>`, is the command
/// behind the first semicolon, with the seconds as its time.
pub proof fn law_extended_zsh_line_has_its_time(
    seconds: i64,
    elapsed: Seq<char>,
    command: Seq<char>,
)
    requires
        !elapsed.contains(';'),
    ensures
        ({
            let line = seq![':', ' '] + decimal_int(seconds as int) + seq![':'] + elapsed + seq![';']
                + command;
            &&& zsh_begin(line).text == command
            &&& -9_223_372_036_854_775 <= seconds <= 9_223_372_036_854_775 ==> zsh_begin(
                line,
            ).started_at_ms == Some((seconds * 1000) as i64)
            &&& zsh_begin(line).started_at_ms is Some
        }),
{
    reveal_strlit(": ");
    let numeral = decimal_int(seconds as int);
    let line = seq![':', ' '] + numeral + seq![':'] + elapsed + seq![';'] + command;
    let stamp = numeral + seq![':'] + elapsed;
    let rest = line.skip(2);
    assert(line.subrange(0, 2) =~= ": "@);
    assert(rest =~= stamp + seq![';'] + command);
    lemma_numeral_chars(seconds as int);
    assert forall|k: int| 0 <= k < stamp.len() implies stamp[k] != ';' by {
        if k > numeral.len() {
            assert(elapsed.contains(elapsed[k - numeral.len() - 1]));
        }
    }
    lemma_first_index(rest, ';', 0);
    assert(rest[stamp.len() as int] == ';');
    let semi = first_index(rest, ';', 0).unwrap();
    assert(semi == stamp.len()) by {
        if semi < stamp.len() {
            assert(rest[semi] == stamp[semi]);
        }
    }
    assert(rest.take(semi) =~= stamp);
    assert(rest.skip(semi + 1) =~= command);
    lemma_first_index(stamp, ':', 0);
    assert(stamp[numeral.len() as int] == ':');
    let colon = first_index(stamp, ':', 0).unwrap();
    assert(colon == numeral.len()) by {
        if colon < numeral.len() {
            assert(stamp[colon] == numeral[colon]);
        }
    }
    assert(stamp.take(colon) =~= numeral);
    lemma_decimal_int_value(seconds as int);
}

/// A numeral holds no colon and no semicolon.
proof fn lemma_numeral_chars(n: int)
    ensures
        forall|k: int|
            0 <= k < decimal_int(n).len() ==> (#[trigger] decimal_int(n)[k]) != ':' && decimal_int(
                n,
            )[k] != ';',
{
    let size = if n < 0 {
        (-n) as nat
    } else {
        n as nat
    };
    lemma_decimal_value(size);
    assert forall|k: int| 0 <= k < decimal_int(n).len() implies (#[trigger] decimal_int(n)[k]) != ':'
        && decimal_int(n)[k] != ';' by {
        if n < 0 {
            if k > 0 {
                assert(decimal_int(n)[k] == decimal(size)[k - 1]);
                assert(is_digit(decimal(size)[k - 1]));
            }
        } else {
            assert(is_digit(decimal(size)[k]));
        }
    }
}

/// A line that starts as an extended one but whose stamp is no number of seconds keeps
/// the command behind its first semicolon, without a time: a stamp without a colon, and
/// one with something else than a number of 64 bits before it.
pub proof fn law_zsh_line_with_a_bad_stamp(
    stamp: Seq<char>,
    word: Seq<char>,
    after: Seq<char>,
    command: Seq<char>,
)
    requires
        !stamp.contains(';'),
        stamp.contains(':') ==> {
            &&& stamp == word + seq![':'] + after
            &&& !word.contains(':')
            &&& numeral_value(word) is None || numeral_value(word).unwrap() > i64::MAX
                || numeral_value(word).unwrap() < i64::MIN
        },
    ensures
        ({
            let line = seq![':', ' '] + stamp + seq![';'] + command;
            zsh_begin(line).text == command && zsh_begin(line).started_at_ms is None
        }),
{
    reveal_strlit(": ");
    let line = seq![':', ' '] + stamp + seq![';'] + command;
    let rest = line.skip(2);
    assert(line.subrange(0, 2) =~= ": "@);
    assert(rest =~= stamp + seq![';'] + command);
    lemma_first_index(rest, ';', 0);
    assert(rest[stamp.len() as int] == ';');
    let semi = first_index(rest, ';', 0).unwrap();
    assert(semi == stamp.len()) by {
        if semi < stamp.len() {
            assert(rest[semi] == stamp[semi]);
            assert(stamp.contains(stamp[semi]));
        }
    }
    assert(rest.take(semi) =~= stamp);
    assert(rest.skip(semi + 1) =~= command);
    lemma_first_index(stamp, ':', 0);
    if let Some(colon) = first_index(stamp, ':', 0) {
        assert(stamp.contains(stamp[colon]));
        assert(stamp[word.len() as int] == ':');
        if colon < word.len() {
            assert(word.contains(word[colon]));
        }
        assert(stamp.take(colon) =~= word);
    }
}

/// Each line of a zsh history that ends in no backslash is an entry of its own, and an
/// empty one is none.
pub proof fn law_zsh_line_by_line(line: Seq<char>, more: Seq<Seq<char>>)
    requires
        line.len() == 0 || line.last() != '\\',
    ensures
        line.len() > 0 ==> zsh_entries(seq![line] + more) == seq![zsh_begin(line)] + zsh_entries(
            more,
        ),
        line.len() == 0 ==> zsh_entries(seq![line] + more) == zsh_entries(more),
        zsh_entries(Seq::<Seq<char>>::empty()).len() == 0,
{
    let all = seq![line] + more;
    assert(all.skip(1) =~= more);
    assert(all[0] == line);
    lemma_zsh_begin_open(line);
    assert(more.skip(0) =~= more);
    if line.len() > 0 {
        let first = zsh_begin(line);
        assert(!ends_open(first.text));
        assert(EntryView { text: first.text, started_at_ms: first.started_at_ms } == first);
    }
}

/// What bash writes of a command: its text, behind a line with its time where it has
/// one.
pub open spec fn bash_written(seconds: Option<i64>, text: Seq<char>) -> Seq<Seq<char>> {
    match seconds {
        Some(s) => seq![seq!['#'] + decimal_int(s as int), text],
        None => seq![text],
    }
}

/// A command that bash wrote comes back with its text and its time, and what follows
/// it is not affected. A command is any line but an empty one and one that bash would
/// have written as a time.
pub proof fn law_bash_command_comes_back(
    seconds: Option<i64>,
    text: Seq<char>,
    more: Seq<Seq<char>>,
)
    requires
        text.len() > 0,
        text[0] != '#' || numeral_value(text.skip(1)) is None || numeral_value(
            text.skip(1),
        ).unwrap() > i64::MAX || numeral_value(text.skip(1)).unwrap() < i64::MIN,
    ensures
        ({
            let back = bash_entries(bash_written(seconds, text) + more, None);
            &&& back.len() > 0
            &&& back[0].text == text
            &&& back[0].started_at_ms is Some <==> seconds is Some
            &&& seconds is Some && -9_223_372_036_854_775 <= seconds.unwrap()
                <= 9_223_372_036_854_775 ==> back[0].started_at_ms == Some(
                (seconds.unwrap() * 1000) as i64,
            )
            &&& back.skip(1) == bash_entries(more, None)
        }),
{
    let lines = bash_written(seconds, text) + more;
    let back = bash_entries(lines, None);
    assert(bash_stamp(text) is None);
    match seconds {
        Some(s) => {
            let stamp = seq!['#'] + decimal_int(s as int);
            lemma_decimal_int_value(s as int);
            assert(stamp.skip(1) =~= decimal_int(s as int));
            assert(lines[0] == stamp);
            let rest = lines.skip(1);
            assert(rest[0] == text);
            assert(rest.skip(1) =~= more);
            assert(bash_stamp(stamp) is Some);
            assert(back == bash_entries(rest, bash_stamp(stamp)));
            assert(back.skip(1) =~= bash_entries(more, None));
        },
        None => {
            assert(lines[0] == text);
            assert(lines.skip(1) =~= more);
            assert(back.skip(1) =~= bash_entries(more, None));
        },
    }
}

/// An empty line of a bash history says nothing, and nothing comes of no lines.
pub proof fn law_bash_empty_lines_say_nothing(more: Seq<Seq<char>>, pending: Option<i64>)
    ensures
        bash_entries(seq![Seq::<char>::empty()] + more, pending) == bash_entries(more, pending),
        bash_entries(Seq::<Seq<char>>::empty(), pending).len() == 0,
{
    assert((seq![Seq::<char>::empty()] + more).skip(1) =~= more);
}

/// A backslash before `n` is a newline and one before a backslash is a backslash; one
/// before anything else, and one at the end, stands for itself, as does every other
/// character.
pub proof fn law_fish_escapes(c: char, rest: Seq<char>)
    ensures
        fish_unescaped(seq!['\\', 'n'] + rest) == seq!['\n'] + fish_unescaped(rest),
        fish_unescaped(seq!['\\', '\\'] + rest) == seq!['\\'] + fish_unescaped(rest),
        c != 'n' && c != '\\' ==> fish_unescaped(seq!['\\', c] + rest) == seq!['\\', c]
            + fish_unescaped(rest),
        c != '\\' ==> fish_unescaped(seq![c] + rest) == seq![c] + fish_unescaped(rest),
        fish_unescaped(seq!['\\']) == seq!['\\'],
        fish_unescaped(Seq::<char>::empty()).len() == 0,
{
    assert((seq!['\\', 'n'] + rest).skip(2) =~= rest);
    assert((seq!['\\', '\\'] + rest).skip(2) =~= rest);
    assert((seq!['\\', c] + rest).skip(2) =~= rest);
    assert((seq![c] + rest).skip(1) =~= rest);
    let lone = seq!['\\'];
    assert(lone.skip(1) =~= Seq::<char>::empty());
    assert(fish_unescaped(lone.skip(1)) == Seq::<char>::empty());
    assert(fish_unescaped(lone) =~= lone);
}

/// What fish writes of a command: a line with its text, and one with its time.
pub open spec fn fish_written(text: Seq<char>, seconds: Option<i64>) -> Seq<Seq<char>> {
    let cmd = "- cmd: "@ + fish_escaped(text);
    match seconds {
        Some(s) => seq![cmd, "  when: "@ + decimal_int(s as int)],
        None => seq![cmd],
    }
}

/// A command that fish wrote comes back with its text and its time, and what follows
/// it is not affected, be it another command or the end.
pub proof fn law_fish_command_comes_back(
    text: Seq<char>,
    seconds: Option<i64>,
    more: Seq<Seq<char>>,
)
    requires
        more.len() > 0 ==> starts_with(more[0], "- cmd: "@),
    ensures
        ({
            let none = FishOpen { cmd: None, when: None };
            let back = fish_entries(fish_written(text, seconds) + more, none);
            &&& back.len() > 0
            &&& back[0].text == text
            &&& back[0].started_at_ms is Some <==> seconds is Some
            &&& seconds is Some && -9_223_372_036_854_775 <= seconds.unwrap()
                <= 9_223_372_036_854_775 ==> back[0].started_at_ms == Some(
                (seconds.unwrap() * 1000) as i64,
            )
            &&& back.skip(1) == fish_entries(more, none)
        }),
{
    reveal_strlit("- cmd: ");
    reveal_strlit("when: ");
    reveal_strlit("  when: ");
    let none = FishOpen { cmd: None, when: None };
    let lines = fish_written(text, seconds) + more;
    let cmd = "- cmd: "@ + fish_escaped(text);
    law_fish_escape_round_trip(text);
    assert(cmd.subrange(0, 7) =~= "- cmd: "@);
    assert(cmd.skip(7) =~= fish_escaped(text));
    assert(lines[0] == cmd);
    let open = FishOpen { cmd: Some(text), when: None };
    let back = fish_entries(lines, none);
    assert(back =~= fish_entries(lines.skip(1), open));
    let timed = FishOpen { cmd: Some(text), when: seconds };
    match seconds {
        Some(s) => {
            let when = "  when: "@ + decimal_int(s as int);
            lemma_decimal_int_value(s as int);
            assert(lines.skip(1)[0] == when);
            assert(lines.skip(1).skip(1) =~= more);
            assert(when[0] == ' ' && when[1] == ' ' && when[2] == 'w');
            let trimmed = when.skip(2);
            assert(when.skip(1).skip(1) =~= trimmed);
            assert(trimmed_start(when.skip(1)) == trimmed_start(trimmed));
            assert(trimmed_start(when) == trimmed);
            assert(trimmed.subrange(0, 6) =~= "when: "@);
            assert(trimmed.skip(6) =~= decimal_int(s as int));
            assert(!starts_with(when, "- cmd: "@)) by {
                if starts_with(when, "- cmd: "@) {
                    assert(when.subrange(0, 7)[0] == "- cmd: "@[0]);
                }
            }
            assert(back == fish_entries(more, timed));
        },
        None => {
            assert(lines.skip(1) =~= more);
        },
    }
    assert(back == fish_entries(more, timed));
    if more.len() > 0 {
        let next = FishOpen { cmd: Some(fish_unescaped(more[0].skip(7))), when: None };
        assert(fish_entries(more, none) =~= fish_entries(more.skip(1), next));
        assert(back == fish_close(timed) + fish_entries(more.skip(1), next));
        assert(back.skip(1) =~= fish_entries(more, none));
    } else {
        assert(back == fish_close(timed));
        assert(fish_entries(more, none) =~= Seq::<EntryView>::empty());
        assert(back.skip(1) =~= fish_entries(more, none));
    }
}

/// A line of a fish history that neither begins a command nor times one is passed
/// over, and a time before any command too.
pub proof fn law_fish_other_lines_say_nothing(
    line: Seq<char>,
    more: Seq<Seq<char>>,
    open: FishOpen,
)
    requires
        !starts_with(line, "- cmd: "@),
        !starts_with(trimmed_start(line), "when: "@) || open.cmd is None,
    ensures
        fish_entries(seq![line] + more, open) == fish_entries(more, open),
{
    assert((seq![line] + more).skip(1) =~= more);
}

/// White space in front of a line is left out, and nothing else is.
pub proof fn law_line_without_its_margin(c: char, line: Seq<char>)
    ensures
        whitespace(c) ==> trimmed_start(seq![c] + line) == trimmed_start(line),
        line.len() > 0 && !whitespace(line[0]) ==> trimmed_start(line) == line,
        trimmed_start(Seq::<char>::empty()).len() == 0,
{
    assert((seq![c] + line).skip(1) =~= line);
}

/// A command that is left open at the end of a zsh history is kept as it stands.
pub proof fn law_zsh_last_line(line: Seq<char>)
    requires
        line.len() > 0,
    ensures
        zsh_entries(seq![line]) == seq![zsh_begin(line)],
{
    let all = seq![line];
    assert(all.skip(1) =~= Seq::<Seq<char>>::empty());
    assert(all[0] == line);
    let rest = all.skip(1);
    assert(rest.skip(0) =~= rest);
    assert(zsh_entries(rest) == Seq::<EntryView>::empty());
    let first = zsh_begin(line);
    assert(EntryView { text: first.text, started_at_ms: first.started_at_ms } == first);
    assert(zsh_entries(all) =~= seq![first]);
}

/// What [`zsh_history_entries`] and [`bash_history_entries`] give for a plain line: the
/// line itself, without a time.
pub proof fn law_plain_lines_as_read(text: &str, zsh: Vec<ParsedEntry>, bash: Vec<ParsedEntry>)
    requires
        text@.len() > 0,
        !text@.contains('\n'),
        text@[0] != ':',
        text@[0] != '#',
        call_ensures(zsh_history_entries, (text,), zsh),
        call_ensures(bash_history_entries, (text,), bash),
    ensures
        zsh@.len() == 1,
        zsh@[0].text@ == text@,
        zsh@[0].started_at_ms is None,
        bash@.len() == 1,
        bash@[0].text@ == text@,
        bash@[0].started_at_ms is None,
{
    let line = text@;
    crate::lines::law_lines_end_at_newlines(line, Seq::empty());
    law_zsh_last_line(line);
    law_plain_zsh_line_is_the_command(line);
    law_bash_command_comes_back(None, line, Seq::empty());
    assert(bash_written(None, line) + Seq::<Seq<char>>::empty() =~= seq![line]);
    assert(entries_view(zsh@)[0] == zsh@[0]@);
    let back = bash_entries(seq![line], None);
    law_bash_empty_lines_say_nothing(Seq::empty(), None);
    assert(back.skip(1).len() == 0);
    assert(entries_view(bash@)[0] == bash@[0]@);
}

/// What [`fish_history_entries`] gives for a command that fish wrote without a time: the
/// command.
pub proof fn law_fish_command_as_read(text: &str, command: Seq<char>, fish: Vec<ParsedEntry>)
    requires
        text@ == "- cmd: "@ + fish_escaped(command),
        !fish_escaped(command).contains('\n'),
        call_ensures(fish_history_entries, (text,), fish),
    ensures
        fish@.len() == 1,
        fish@[0].text@ == command,
        fish@[0].started_at_ms is None,
{
    reveal_strlit("- cmd: ");
    let line = text@;
    assert(!line.contains('\n')) by {
        assert forall|k: int| 0 <= k < line.len() implies line[k] != '\n' by {
            if k >= 7 {
                assert(fish_escaped(command).contains(fish_escaped(command)[k - 7]));
            }
        }
    }
    crate::lines::law_lines_end_at_newlines(line, Seq::empty());
    law_fish_command_comes_back(command, None, Seq::empty());
    assert(fish_written(command, None) + Seq::<Seq<char>>::empty() =~= seq![line]);
    let none = FishOpen { cmd: None, when: None };
    let back = fish_entries(seq![line], none);
    assert(fish_entries(Seq::<Seq<char>>::empty(), none).len() == 0);
    assert(back.skip(1).len() == 0);
    assert(entries_view(fish@)[0] == fish@[0]@);
}

/// A time of a fish history that is no number of 64 bits is no time.
pub proof fn law_fish_bad_time_is_none(text: Seq<char>, word: Seq<char>, earlier: Option<i64>)
    requires
        numeral_value(word) is None || numeral_value(word).unwrap() > i64::MAX || numeral_value(
            word,
        ).unwrap() < i64::MIN,
    ensures
        fish_entries(
            seq!["when: "@ + word],
            FishOpen { cmd: Some(text), when: earlier },
        ) == seq![EntryView { text, started_at_ms: None }],
{
    reveal_strlit("- cmd: ");
    reveal_strlit("when: ");
    let line = "when: "@ + word;
    let all = seq![line];
    assert(all.skip(1) =~= Seq::<Seq<char>>::empty());
    assert(line[0] == 'w');
    assert(trimmed_start(line) == line);
    assert(line.subrange(0, 6) =~= "when: "@);
    assert(line.skip(6) =~= word);
    assert(!starts_with(line, "- cmd: "@)) by {
        if starts_with(line, "- cmd: "@) {
            assert(line.subrange(0, 7)[0] == "- cmd: "@[0]);
        }
    }
    let closed = FishOpen { cmd: Some(text), when: None };
    assert(fish_entries(all, FishOpen { cmd: Some(text), when: earlier }) == fish_entries(
        all.skip(1),
        closed,
    ));
}

} // verus!
