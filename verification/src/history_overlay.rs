//! The history overlay: a query, a ranked list of commands and a selection.

use vstd::prelude::*;
use vstd::string::*;
use vstd::utf8::{encode_utf8, is_char_boundary};

use crate::history::db::Entry;
use crate::history::search::{
    cwd_view, first_occurrence, is_ranking, law_case_does_not_matter,
    law_ranking_holds_what_matches, law_what_decides_a_ranking, lemma_first_occurrence,
    lowered_texts, query_words, rank, words_of,
};
use crate::json::strings_view;
use crate::text::{
    decimal, decimal_int, decimal_text, lowercase, lowercase_chars, occurs, occurs_at, same_text,
    signed_text,
};

verus! {

/// How many rows a fetch asks the store for.
pub const FETCH_LIMIT: usize = 2000;

/// How many rows the list holds at most.
pub const RANK_LIMIT: usize = 200;

/// Which rows the overlay draws from.
#[derive(Debug, Clone, Copy, PartialEq, Eq, Structural)]
pub enum OverlayScope {
    /// Every row.
    Global,
    /// The rows of this pane in this run.
    Pane,
}

impl OverlayScope {
    /// The other scope.
    pub fn flipped(self) -> (r: OverlayScope)
        ensures
            r == (match self {
                OverlayScope::Global => OverlayScope::Pane,
                OverlayScope::Pane => OverlayScope::Global,
            }),
    {
        match self {
            OverlayScope::Global => OverlayScope::Pane,
            OverlayScope::Pane => OverlayScope::Global,
        }
    }
}

/// What the user asked for.
#[derive(Debug, Clone, PartialEq, Eq)]
pub enum OverlayAction {
    /// Put the text into the editor and close the overlay.
    Submit(String),
    /// Close the overlay.
    Cancel,
    /// Draw from the other scope.
    ToggleScope,
}

/// The keys that were pressed in a frame.
#[derive(Debug, Clone, Copy, PartialEq, Eq, Structural)]
pub struct OverlayKeys {
    pub enter: bool,
    pub escape: bool,
    pub tab: bool,
    pub arrow_down: bool,
    pub arrow_up: bool,
}

/// The state of the overlay.
#[derive(Debug)]
pub struct HistoryOverlay {
    pub query: String,
    pub scope: OverlayScope,
    /// The selected row of the list, from the top.
    pub selected: usize,
    /// The rows fetched, most recent first, each text once.
    pub cached_entries: Vec<Entry>,
    /// The list: indices into `cached_entries`, best first.
    pub ranked: Vec<usize>,
}

/// The entry that is selected, if any.
pub open spec fn chosen(o: HistoryOverlay) -> Option<usize> {
    if o.selected < o.ranked@.len() {
        Some(o.ranked@[o.selected as int])
    } else {
        None
    }
}

/// The text of the entry that is selected, if any.
pub open spec fn chosen_text(o: HistoryOverlay) -> Option<Seq<char>> {
    match chosen(o) {
        Some(i) if i < o.cached_entries@.len() => Some(o.cached_entries@[i as int].text@),
        _ => None,
    }
}

/// The row below `selected` in a list of `rows` rows, if there is one.
pub open spec fn row_below(selected: usize, rows: nat) -> int {
    if rows == 0 {
        selected as int
    } else if selected + 1 <= rows - 1 {
        selected + 1
    } else {
        rows - 1
    }
}

/// The row above `selected`, if there is one.
pub open spec fn row_above(selected: int) -> int {
    if selected > 0 {
        selected - 1
    } else {
        0
    }
}

/// Is `ranked` the list for the overlay's query and the directory `cwd`?
pub open spec fn is_list_of(o: HistoryOverlay, cwd: Option<Seq<char>>, ranked: Seq<usize>) -> bool {
    is_ranking(
        o.cached_entries@,
        lowered_texts(o.cached_entries@),
        query_words(o.query@),
        cwd,
        RANK_LIMIT as nat,
        ranked,
    )
}

impl HistoryOverlay {
    /// An overlay with an empty query over the rows fetched under the global
    /// scope, most recent first.
    pub fn open(fetched: Vec<Entry>) -> (r: HistoryOverlay)
        ensures
            r.query@ == Seq::<char>::empty(),
            r.scope == OverlayScope::Global,
            r.selected == 0,
            r.cached_entries@ == deduped(fetched@),
            is_list_of(r, None, r.ranked@),
    {
        let mut overlay = HistoryOverlay {
            query: String::new(),
            scope: OverlayScope::Global,
            selected: 0,
            cached_entries: dedupe_by_text(fetched),
            ranked: Vec::new(),
        };
        overlay.rerank(None);
        overlay
    }

    /// Takes in the rows fetched under the current scope, most recent first.
    pub fn refresh_entries(&mut self, fetched: Vec<Entry>)
        ensures
            final(self).cached_entries@ == deduped(fetched@),
            final(self).query == old(self).query,
            final(self).scope == old(self).scope,
            final(self).selected == old(self).selected,
            final(self).ranked == old(self).ranked,
    {
        self.cached_entries = dedupe_by_text(fetched);
    }

    /// Makes the list anew and selects its top row.
    pub fn rerank(&mut self, current_cwd: Option<&str>)
        ensures
            is_list_of(*final(self), cwd_view(current_cwd), final(self).ranked@),
            final(self).selected == 0,
            final(self).query == old(self).query,
            final(self).scope == old(self).scope,
            final(self).cached_entries == old(self).cached_entries,
    {
        let ranked = rank(
            self.cached_entries.as_slice(),
            self.query.as_str(),
            current_cwd,
            RANK_LIMIT,
        );
        self.ranked = ranked;
        self.selected = 0;
    }

    /// Takes in the query as the user left it; the list is made anew where it
    /// changed.
    pub fn edit_query(&mut self, query: &str, current_cwd: Option<&str>)
        ensures
            final(self).query@ == query@,
            final(self).scope == old(self).scope,
            final(self).cached_entries == old(self).cached_entries,
            query@ == old(self).query@ ==> final(self).selected == old(self).selected,
            query@ == old(self).query@ ==> final(self).ranked == old(self).ranked,
            query@ != old(self).query@ ==> final(self).selected == 0,
            query@ != old(self).query@ ==> is_list_of(
                *final(self),
                cwd_view(current_cwd),
                final(self).ranked@,
            ),
    {
        if !same_text(self.query.as_str(), query) {
            self.query = query.to_owned();
            self.rerank(current_cwd);
        }
    }

    /// The entry that is selected, if any.
    pub fn selected_entry_idx(&self) -> (r: Option<usize>)
        ensures
            r == chosen(*self),
    {
        if self.selected < self.ranked.len() {
            Some(self.ranked[self.selected])
        } else {
            None
        }
    }

    /// The text of the entry that is selected, if any.
    pub fn selected_text(&self) -> (r: Option<&str>)
        ensures
            match r {
                Some(s) => chosen_text(*self) == Some(s@),
                None => chosen_text(*self) is None,
            },
    {
        match self.selected_entry_idx() {
            Some(i) => if i < self.cached_entries.len() {
                Some(self.cached_entries[i].text.as_str())
            } else {
                None
            },
            None => None,
        }
    }

    /// Selects the row below, as far as there is one.
    pub fn move_down(&mut self)
        ensures
            final(self).selected == row_below(old(self).selected, old(self).ranked@.len()),
            final(self).query == old(self).query,
            final(self).scope == old(self).scope,
            final(self).cached_entries == old(self).cached_entries,
            final(self).ranked == old(self).ranked,
    {
        let rows: usize = self.ranked.len();
        if rows > 0 {
            if self.selected < rows - 1 {
                self.selected = self.selected + 1;
            } else {
                self.selected = rows - 1;
            }
        }
    }

    /// Selects the row above, as far as there is one.
    pub fn move_up(&mut self)
        ensures
            final(self).selected == row_above(old(self).selected as int),
            final(self).query == old(self).query,
            final(self).scope == old(self).scope,
            final(self).cached_entries == old(self).cached_entries,
            final(self).ranked == old(self).ranked,
    {
        if self.selected > 0 {
            self.selected = self.selected - 1;
        }
    }

    /// Turns to the other scope; the rows are to be fetched again.
    pub fn toggle_scope(&mut self)
        ensures
            final(self).scope == (match old(self).scope {
                OverlayScope::Global => OverlayScope::Pane,
                OverlayScope::Pane => OverlayScope::Global,
            }),
            final(self).query == old(self).query,
            final(self).selected == old(self).selected,
            final(self).cached_entries == old(self).cached_entries,
            final(self).ranked == old(self).ranked,
    {
        self.scope = self.scope.flipped();
    }

    /// Takes in the keys of a frame. Enter beats Escape, which beats Tab; the
    /// arrows move the selection only where none of these was pressed.
    pub fn handle_keys(&mut self, keys: OverlayKeys) -> (r: Option<OverlayAction>)
        ensures
            action_view(r) == keyed_action(*old(self), keys),
            final(self).selected == keyed_row(*old(self), keys),
            final(self).query == old(self).query,
            final(self).scope == old(self).scope,
            final(self).cached_entries == old(self).cached_entries,
            final(self).ranked == old(self).ranked,
    {
        if keys.enter {
            return match self.selected_text() {
                Some(t) => Some(OverlayAction::Submit(t.to_owned())),
                None => Some(OverlayAction::Cancel),
            };
        }
        if keys.escape {
            return Some(OverlayAction::Cancel);
        }
        if keys.tab {
            return Some(OverlayAction::ToggleScope);
        }
        if keys.arrow_down {
            self.move_down();
        }
        if keys.arrow_up {
            self.move_up();
        }
        None
    }

    /// The action of a click on a row of the list: its text is submitted.
    pub fn click_row(&self, row: usize) -> (r: Option<OverlayAction>)
        ensures
            action_view(r) == (if row < self.ranked@.len() && self.ranked@[row as int]
                < self.cached_entries@.len() {
                Some(
                    OverlayActionView::Submit(
                        self.cached_entries@[self.ranked@[row as int] as int].text@,
                    ),
                )
            } else {
                None
            }),
    {
        if row < self.ranked.len() {
            let i: usize = self.ranked[row];
            if i < self.cached_entries.len() {
                return Some(OverlayAction::Submit(self.cached_entries[i].text.clone()));
            }
        }
        None
    }
}

/// What the user asked for, as mathematics.
pub enum OverlayActionView {
    Submit(Seq<char>),
    Cancel,
    ToggleScope,
}

/// The view of an optional action.
pub open spec fn action_view(a: Option<OverlayAction>) -> Option<OverlayActionView> {
    match a {
        Some(OverlayAction::Submit(s)) => Some(OverlayActionView::Submit(s@)),
        Some(OverlayAction::Cancel) => Some(OverlayActionView::Cancel),
        Some(OverlayAction::ToggleScope) => Some(OverlayActionView::ToggleScope),
        None => None,
    }
}

/// What the keys of a frame ask for.
pub open spec fn keyed_action(o: HistoryOverlay, keys: OverlayKeys) -> Option<OverlayActionView> {
    if keys.enter {
        match chosen_text(o) {
            Some(t) => Some(OverlayActionView::Submit(t)),
            None => Some(OverlayActionView::Cancel),
        }
    } else if keys.escape {
        Some(OverlayActionView::Cancel)
    } else if keys.tab {
        Some(OverlayActionView::ToggleScope)
    } else {
        None
    }
}

/// The row that the keys of a frame select.
pub open spec fn keyed_row(o: HistoryOverlay, keys: OverlayKeys) -> int {
    if keys.enter || keys.escape || keys.tab {
        o.selected as int
    } else {
        let down = if keys.arrow_down {
            row_below(o.selected, o.ranked@.len())
        } else {
            o.selected as int
        };
        if keys.arrow_up {
            row_above(down)
        } else {
            down
        }
    }
}

// ---- one row for each text ---------------------------------------------

/// Does `text` stand in `entries`?
pub open spec fn has_text(entries: Seq<Entry>, text: Seq<char>) -> bool {
    exists|i: int| 0 <= i < entries.len() && (#[trigger] entries[i]).text@ == text
}

/// The entries whose text stands in no earlier entry, in order.
pub open spec fn deduped(entries: Seq<Entry>) -> Seq<Entry>
    decreases entries.len(),
{
    if entries.len() == 0 {
        Seq::empty()
    } else if has_text(entries.drop_last(), entries.last().text@) {
        deduped(entries.drop_last())
    } else {
        deduped(entries.drop_last()).push(entries.last())
    }
}

/// Does `text` stand in `entries`?
fn contains_text(entries: &Vec<Entry>, text: &str) -> (r: bool)
    ensures
        r == has_text(entries@, text@),
{
    let mut i: usize = 0;
    while i < entries.len()
        invariant
            i <= entries@.len(),
            forall|k: int| 0 <= k < i ==> (#[trigger] entries@[k]).text@ != text@,
        decreases entries@.len() - i,
    {
        if same_text(entries[i].text.as_str(), text) {
            return true;
        }
        i += 1;
    }
    false
}

/// Keeps the first of the entries with one text.
pub fn dedupe_by_text(entries: Vec<Entry>) -> (out: Vec<Entry>)
    ensures
        out@ == deduped(entries@),
{
    let mut rest = entries;
    let mut kept: Vec<Entry> = Vec::new();
    assert(deduped(entries@) =~= deduped(rest@) + kept@.reverse());
    while rest.len() > 0
        invariant
            deduped(entries@) == deduped(rest@) + kept@.reverse(),
        decreases rest@.len(),
    {
        let ghost before = rest@;
        let ghost held = kept@;
        match rest.pop() {
            Some(e) => {
                assert(rest@ =~= before.drop_last());
                assert(e == before.last());
                if !contains_text(&rest, e.text.as_str()) {
                    kept.push(e);
                    assert(kept@.reverse() =~= seq![e] + held.reverse());
                    assert(deduped(rest@) + kept@.reverse() =~= deduped(rest@).push(e)
                        + held.reverse());
                }
            },
            None => {},
        }
    }
    assert(deduped(rest@) =~= Seq::empty());
    let ghost all = kept@;
    let mut out: Vec<Entry> = Vec::new();
    while kept.len() > 0
        invariant
            all.reverse() == out@ + kept@.reverse(),
        decreases kept@.len(),
    {
        let ghost before = kept@;
        let ghost done = out@;
        match kept.pop() {
            Some(e) => {
                assert(kept@ =~= before.drop_last());
                out.push(e);
                assert(before.reverse() =~= seq![e] + kept@.reverse());
                assert(out@ + kept@.reverse() =~= done + before.reverse());
            },
            None => {},
        }
    }
    assert(out@ =~= all.reverse());
    assert(deduped(entries@) =~= all.reverse());
    out
}

// ---- highlighting ------------------------------------------------------

/// A run of the bytes of a text, shown as a hit or not.
#[derive(Debug, Clone, Copy, PartialEq, Eq, Structural)]
pub struct Section {
    pub start: usize,
    pub end: usize,
    pub hit: bool,
}

/// The run from `start` to `end`.
pub open spec fn section(start: int, end: int, hit: bool) -> Section {
    Section { start: start as usize, end: end as usize, hit }
}

/// The runs of `text` from `cursor` on: each occurrence of `needle` in `hay`
/// is a hit, and what lies between is not. Where an occurrence would cut a
/// character of the text, the rest is shown plain.
pub open spec fn hit_sections(
    text: Seq<u8>,
    hay: Seq<u8>,
    needle: Seq<u8>,
    cursor: int,
) -> Seq<Section>
    decreases text.len() - cursor,
{
    if cursor < 0 || cursor >= text.len() || needle.len() == 0 {
        Seq::empty()
    } else {
        match first_occurrence(hay, needle, cursor) {
            Some(at) if cursor <= at && at + needle.len() <= text.len() => {
                let end = at + needle.len();
                if !is_char_boundary(text, at) || !is_char_boundary(text, end) {
                    seq![section(cursor, text.len() as int, false)]
                } else {
                    (if at > cursor {
                        seq![section(cursor, at, false)]
                    } else {
                        Seq::empty()
                    }) + seq![section(at, end, true)] + hit_sections(text, hay, needle, end)
                }
            },
            _ => seq![section(cursor, text.len() as int, false)],
        }
    }
}

/// The runs of a text for a query, where `hay` and `needle` are the two in
/// lower case. An empty query, or a text whose length lower case changes,
/// gives one plain run.
pub open spec fn lowered_sections(
    text: Seq<char>,
    query: Seq<char>,
    hay: Seq<char>,
    needle: Seq<char>,
) -> Seq<Section> {
    let bytes = encode_utf8(text);
    if query.len() == 0 || encode_utf8(hay).len() != bytes.len() {
        seq![section(0, bytes.len() as int, false)]
    } else {
        hit_sections(bytes, encode_utf8(hay), encode_utf8(needle), 0)
    }
}

/// Does `needle` stand in `hay` at `at`?
fn bytes_occur_at(hay: &[u8], needle: &[u8], at: usize) -> (r: bool)
    ensures
        r == occurs_at(hay@, needle@, at as int),
{
    let total: usize = hay.len();
    if needle.len() > total || at > total - needle.len() {
        return false;
    }
    let mut i: usize = 0;
    while i < needle.len()
        invariant
            i <= needle@.len(),
            total == hay@.len(),
            at + needle@.len() <= total,
            forall|k: int| 0 <= k < i ==> hay@[at + k] == needle@[k],
        decreases needle@.len() - i,
    {
        if hay[at + i] != needle[i] {
            assert(hay@.subrange(at as int, at + needle@.len())[i as int] != needle@[i as int]);
            return false;
        }
        i += 1;
    }
    assert(hay@.subrange(at as int, at + needle@.len()) =~= needle@);
    true
}

/// The position of the first occurrence of `needle` at or after `from`.
fn find_bytes(hay: &[u8], needle: &[u8], from: usize) -> (r: Option<usize>)
    requires
        needle@.len() > 0,
    ensures
        match r {
            Some(at) => first_occurrence(hay@, needle@, from as int) == Some(at as int) && from
                <= at && at + needle@.len() <= hay@.len(),
            None => first_occurrence(hay@, needle@, from as int) is None,
        },
{
    let total: usize = hay.len();
    let mut i: usize = from;
    while i <= total && needle.len() <= total - i
        invariant
            total == hay@.len(),
            needle@.len() > 0,
            from <= i,
            i <= total || i == from,
            first_occurrence(hay@, needle@, from as int) == first_occurrence(
                hay@,
                needle@,
                i as int,
            ),
        decreases total + 1 - i,
    {
        if bytes_occur_at(hay, needle, i) {
            return Some(i);
        }
        i += 1;
    }
    None
}

/// The runs of a text for a query, where `hay` and `needle` are the two in
/// lower case.
pub fn highlight_lowered(text: &str, query: &str, hay: &str, needle: &str) -> (out: Vec<Section>)
    requires
        query@.len() > 0 ==> needle@.len() > 0,
    ensures
        out@ == lowered_sections(text@, query@, hay@, needle@),
{
    let bytes = text.as_bytes();
    let hay_bytes = hay.as_bytes();
    let needle_bytes = needle.as_bytes();
    let total: usize = bytes.len();
    let mut out: Vec<Section> = Vec::new();
    if query.is_empty() || hay_bytes.len() != total {
        out.push(Section { start: 0, end: total, hit: false });
        assert(out@ =~= lowered_sections(text@, query@, hay@, needle@));
        return out;
    }
    let ghost all = hit_sections(bytes@, hay_bytes@, needle_bytes@, 0);
    proof {
        lemma_encoded_nonempty(needle@);
    }
    let mut cursor: usize = 0;
    assert(all =~= out@ + hit_sections(bytes@, hay_bytes@, needle_bytes@, 0));
    while cursor < total
        invariant
            cursor <= total,
            total == bytes@.len(),
            total == hay_bytes@.len(),
            needle_bytes@.len() > 0,
            bytes@ == text.spec_bytes(),
            all == lowered_sections(text@, query@, hay@, needle@),
            all == out@ + hit_sections(bytes@, hay_bytes@, needle_bytes@, cursor as int),
        decreases total - cursor,
    {
        let ghost before = out@;
        match find_bytes(hay_bytes, needle_bytes, cursor) {
            Some(at) => {
                let end: usize = at + needle_bytes.len();
                if !text.is_char_boundary(at) || !text.is_char_boundary(end) {
                    out.push(Section { start: cursor, end: total, hit: false });
                    assert(out@ =~= before + seq![section(cursor as int, total as int, false)]);
                    return out;
                }
                if at > cursor {
                    out.push(Section { start: cursor, end: at, hit: false });
                }
                out.push(Section { start: at, end, hit: true });
                assert(out@ + hit_sections(bytes@, hay_bytes@, needle_bytes@, end as int) =~= before
                    + hit_sections(bytes@, hay_bytes@, needle_bytes@, cursor as int));
                cursor = end;
            },
            None => {
                out.push(Section { start: cursor, end: total, hit: false });
                assert(out@ =~= before + seq![section(cursor as int, total as int, false)]);
                return out;
            },
        }
    }
    assert(hit_sections(bytes@, hay_bytes@, needle_bytes@, cursor as int) =~= Seq::empty());
    assert(out@ =~= all);
    out
}

/// A text that is not empty has bytes.
proof fn lemma_encoded_nonempty(s: Seq<char>)
    ensures
        s.len() > 0 ==> encode_utf8(s).len() > 0,
{
    if s.len() > 0 {
        vstd::utf8::encode_utf8_first_scalar(s);
    }
}

/// The runs of a text for a query: every occurrence of the query, whatever
/// the case, is a hit.
pub fn highlight_sections(text: &str, query: &str) -> (out: Vec<Section>)
    ensures
        lowercase_chars(query@).len() > 0 ==> out@ == lowered_sections(
            text@,
            query@,
            lowercase_chars(text@),
            lowercase_chars(query@),
        ),
        lowercase_chars(query@).len() == 0 ==> out@ == seq![
            section(0, encode_utf8(text@).len() as int, false),
        ],
{
    let hay = lowercase(text);
    let needle = lowercase(query);
    if needle.as_str().is_empty() {
        let total: usize = text.as_bytes().len();
        let mut out: Vec<Section> = Vec::new();
        out.push(Section { start: 0, end: total, hit: false });
        assert(out@ =~= seq![section(0, total as int, false)]);
        return out;
    }
    highlight_lowered(text, query, hay.as_str(), needle.as_str())
}

/// Do the runs, in order, cover exactly the bytes from `from` to `to`?
pub open spec fn tiles(sections: Seq<Section>, from: int, to: int) -> bool
    decreases sections.len(),
{
    if sections.len() == 0 {
        from == to
    } else {
        sections[0].start == from && from < sections[0].end <= to && tiles(
            sections.skip(1),
            sections[0].end as int,
            to,
        )
    }
}

/// Highlighting loses nothing and repeats nothing: the runs cover the text,
/// one after the other.
pub proof fn law_highlight_tiles_the_text(
    text: Seq<u8>,
    hay: Seq<u8>,
    needle: Seq<u8>,
    cursor: int,
)
    requires
        text.len() == hay.len() <= usize::MAX,
        needle.len() > 0,
        0 <= cursor <= text.len(),
    ensures
        tiles(hit_sections(text, hay, needle, cursor), cursor, text.len() as int),
    decreases text.len() - cursor,
{
    let all = hit_sections(text, hay, needle, cursor);
    reveal_with_fuel(tiles, 3);
    if cursor < text.len() {
        lemma_first_occurrence(hay, needle, cursor);
        let plain = seq![section(cursor, text.len() as int, false)];
        assert(plain.skip(1) =~= Seq::empty());
        if let Some(at) = first_occurrence(hay, needle, cursor) {
            let end = at + needle.len();
            if is_char_boundary(text, at) && is_char_boundary(text, end) {
                law_highlight_tiles_the_text(text, hay, needle, end);
                let rest = hit_sections(text, hay, needle, end);
                if at > cursor {
                    assert(all.skip(1) =~= seq![section(at, end, true)] + rest);
                    assert(all.skip(1).skip(1) =~= rest);
                } else {
                    assert(all.skip(1) =~= rest);
                }
            }
        }
    }
}

// ---- age ---------------------------------------------------------------

/// `<n> <unit> ago`, in the plural unless `n` is one.
pub open spec fn ago(n: int, unit: Seq<char>) -> Seq<char> {
    if n == 1 {
        "1 "@ + unit + " ago"@
    } else {
        decimal_int(n) + " "@ + unit + "s ago"@
    }
}

/// The age of something that happened `secs` seconds ago: a short and a long
/// form.
pub open spec fn age_labels(secs: int) -> (Seq<char>, Seq<char>) {
    let mins = secs / 60;
    let hours = mins / 60;
    let days = hours / 24;
    if secs < 60 {
        ("now"@, "just now"@)
    } else if mins < 60 {
        (decimal(mins as nat) + "m"@, ago(mins, "minute"@))
    } else if hours < 24 {
        (decimal(hours as nat) + "h"@, ago(hours, "hour"@))
    } else if days == 1 {
        ("1d"@, "yesterday"@)
    } else if days < 7 {
        (decimal(days as nat) + "d"@, ago(days, "day"@))
    } else if days < 30 {
        (decimal((days / 7) as nat) + "w"@, ago(days / 7, "week"@))
    } else if days < 365 {
        (decimal((days / 30) as nat) + "mo"@, ago(days / 30, "month"@))
    } else {
        (decimal((days / 365) as nat) + "y"@, ago(days / 365, "year"@))
    }
}

/// The whole seconds from `then_ms` to `now_ms`; none where `then_ms` is the
/// later.
pub open spec fn elapsed_secs(now_ms: i64, then_ms: i64) -> int {
    if now_ms <= then_ms {
        0
    } else {
        (now_ms - then_ms) / 1000
    }
}

/// `<n> <unit> ago`, in the plural unless `n` is one.
pub fn pluralize(n: i64, unit: &str) -> (r: String)
    ensures
        r@ == ago(n as int, unit@),
{
    let mut out = String::new();
    if n == 1 {
        out.append("1 ");
        out.append(unit);
        out.append(" ago");
        assert(out@ =~= "1 "@ + unit@ + " ago"@);
    } else {
        if n < 0 {
            out.append("-");
            proof {
                reveal_strlit("-");
                assert("-"@ =~= seq!['-']);
            }
            let m: u64 = if n == i64::MIN {
                9_223_372_036_854_775_808
            } else {
                (-n) as u64
            };
            out.append(decimal_text(m).as_str());
            assert(out@ =~= decimal_int(n as int));
        } else {
            out.append(decimal_text(n as u64).as_str());
            assert(out@ =~= decimal_int(n as int));
        }
        out.append(" ");
        out.append(unit);
        out.append("s ago");
        assert(out@ =~= decimal_int(n as int) + " "@ + unit@ + "s ago"@);
    }
    out
}

/// `<n><suffix>`.
fn short_age(n: i64, suffix: &str) -> (r: String)
    requires
        n >= 0,
    ensures
        r@ == decimal(n as nat) + suffix@,
{
    let mut out = decimal_text(n as u64);
    out.append(suffix);
    out
}

/// The age of something that happened at `then_ms`, at `now_ms`: a short form
/// (`4m`) and a long one (`4 minutes ago`). What lies in the future is `now`.
pub fn format_age(now_ms: i64, then_ms: i64) -> (r: (String, String))
    requires
        i64::MIN <= now_ms - then_ms <= i64::MAX,
    ensures
        (r.0@, r.1@) == age_labels(elapsed_secs(now_ms, then_ms)),
{
    let diff: i64 = now_ms - then_ms;
    let secs: i64 = if diff > 0 {
        diff / 1000
    } else {
        0
    };
    if secs < 60 {
        return ("now".to_owned(), "just now".to_owned());
    }
    let mins: i64 = secs / 60;
    if mins < 60 {
        return (short_age(mins, "m"), pluralize(mins, "minute"));
    }
    let hours: i64 = mins / 60;
    if hours < 24 {
        return (short_age(hours, "h"), pluralize(hours, "hour"));
    }
    let days: i64 = hours / 24;
    if days == 1 {
        return ("1d".to_owned(), "yesterday".to_owned());
    }
    if days < 7 {
        return (short_age(days, "d"), pluralize(days, "day"));
    }
    if days < 30 {
        return (short_age(days / 7, "w"), pluralize(days / 7, "week"));
    }
    if days < 365 {
        return (short_age(days / 30, "mo"), pluralize(days / 30, "month"));
    }
    (short_age(days / 365, "y"), pluralize(days / 365, "year"))
}

/// The name of a scope in the overlay's title.
pub fn scope_label(s: OverlayScope) -> (r: &'static str)
    ensures
        r@ == (match s {
            OverlayScope::Global => "global*"@,
            OverlayScope::Pane => "this pane*"@,
        }),
{
    match s {
        OverlayScope::Global => "global*",
        OverlayScope::Pane => "this pane*",
    }
}

/// A row of the list: its place, the entry that it shows, and whether it is
/// selected.
#[derive(Debug, Clone, Copy, PartialEq, Eq, Structural)]
pub struct RowView {
    pub row: usize,
    pub entry: usize,
    pub is_selected: bool,
}

/// The rows of a list over so many entries; a row whose entry is gone is left out.
pub open spec fn rows_of(ranked: Seq<usize>, entries: nat, selected: usize) -> Seq<RowView>
    decreases ranked.len(),
{
    if ranked.len() == 0 {
        Seq::empty()
    } else {
        let rest = rows_of(ranked.drop_last(), entries, selected);
        if ranked.last() < entries {
            rest.push(
                RowView {
                    row: (ranked.len() - 1) as usize,
                    entry: ranked.last(),
                    is_selected: ranked.len() - 1 == selected,
                },
            )
        } else {
            rest
        }
    }
}

impl HistoryOverlay {
    /// The rows of the list.
    pub fn rows(&self) -> (r: Vec<RowView>)
        ensures
            r@ == rows_of(self.ranked@, self.cached_entries@.len(), self.selected),
    {
        let mut out: Vec<RowView> = Vec::new();
        let mut i: usize = 0;
        while i < self.ranked.len()
            invariant
                i <= self.ranked@.len(),
                out@ == rows_of(
                    self.ranked@.take(i as int),
                    self.cached_entries@.len(),
                    self.selected,
                ),
            decreases self.ranked@.len() - i,
        {
            assert(self.ranked@.take(i + 1).drop_last() =~= self.ranked@.take(i as int));
            let entry: usize = self.ranked[i];
            if entry < self.cached_entries.len() {
                out.push(RowView { row: i, entry, is_selected: i == self.selected });
            }
            i += 1;
        }
        assert(self.ranked@.take(i as int) =~= self.ranked@);
        out
    }
}

/// What a row says of its entry, behind its age: the directory, the exit code, and
/// where it came from unless it was run here.
pub open spec fn row_labels(e: Entry) -> Seq<Seq<char>> {
    let cwd = match e.cwd {
        Some(c) => seq![c@],
        None => Seq::empty(),
    };
    let exit = match e.exit_code {
        Some(code) => seq!["exit "@ + decimal_int(code as int)],
        None => Seq::empty(),
    };
    let source = if e.source@ == "termica"@ {
        Seq::empty()
    } else {
        seq![e.source@]
    };
    cwd + exit + source
}

/// What a row says of its entry, behind its age.
pub fn row_meta(e: &Entry) -> (r: Vec<String>)
    ensures
        strings_view(r@) == row_labels(*e),
{
    let mut out: Vec<String> = Vec::new();
    if let Some(c) = &e.cwd {
        out.push(c.clone());
    }
    if let Some(code) = e.exit_code {
        let mut label = "exit ".to_owned();
        label.append(signed_text(code as i64).as_str());
        out.push(label);
    }
    if !same_text(e.source.as_str(), "termica") {
        out.push(e.source.clone());
    }
    assert(strings_view(out@) =~= row_labels(*e));
    out
}

// ---- laws --------------------------------------------------------------

/// No two of the entries that are kept have one text.
pub proof fn law_deduped_texts_are_distinct(entries: Seq<Entry>)
    ensures
        forall|i: int, j: int|
            0 <= i < j < deduped(entries).len() ==> (#[trigger] deduped(entries)[i]).text@ != (
            #[trigger] deduped(entries)[j]).text@,
    decreases entries.len(),
{
    if entries.len() > 0 {
        law_deduped_texts_are_distinct(entries.drop_last());
        lemma_deduped_texts(entries.drop_last());
        let init = deduped(entries.drop_last());
        let all = deduped(entries);
        assert forall|i: int, j: int| 0 <= i < j < all.len() implies (#[trigger] all[i]).text@ != (
        #[trigger] all[j]).text@ by {
            assert(all[i] == init[i]);
            if j < init.len() {
                assert(all[j] == init[j]);
            } else {
                assert(has_text(init, init[i].text@));
            }
        }
    }
}

/// The texts that are kept are the texts that there are.
proof fn lemma_deduped_texts(entries: Seq<Entry>)
    ensures
        forall|t: Seq<char>| #[trigger] has_text(deduped(entries), t) == has_text(entries, t),
    decreases entries.len(),
{
    if entries.len() > 0 {
        let init = entries.drop_last();
        lemma_deduped_texts(init);
        assert forall|t: Seq<char>| #[trigger]
            has_text(deduped(entries), t) == has_text(entries, t) by {
            let all = deduped(entries);
            assert(has_text(deduped(init), t) == has_text(init, t));
            if has_text(entries, t) {
                let i = choose|i: int| 0 <= i < entries.len() && (#[trigger] entries[i]).text@ == t;
                if i < init.len() {
                    assert(init[i].text@ == t);
                    assert(has_text(init, t));
                }
                if has_text(init, t) {
                    let k = choose|k: int|
                        0 <= k < deduped(init).len() && (#[trigger] deduped(init)[k]).text@ == t;
                    assert(all[k] == deduped(init)[k]);
                } else {
                    assert(all[all.len() - 1].text@ == t);
                }
            }
            if has_text(all, t) {
                let k = choose|k: int| 0 <= k < all.len() && (#[trigger] all[k]).text@ == t;
                if k < deduped(init).len() {
                    assert(deduped(init)[k].text@ == t);
                    let i = choose|i: int| 0 <= i < init.len() && (#[trigger] init[i]).text@ == t;
                    assert(entries[i].text@ == t);
                } else {
                    assert(entries[entries.len() - 1].text@ == t);
                }
            }
        }
    }
}

/// Every text of the history is kept.
pub proof fn law_dedupe_keeps_every_text(entries: Seq<Entry>, text: Seq<char>)
    ensures
        has_text(deduped(entries), text) == has_text(entries, text),
{
    lemma_deduped_texts(entries);
}

/// What the keys of the overlay do. Enter puts the selected command into the editor, or
/// closes the overlay where there is none; Escape closes it; Tab turns to the other
/// scope; and each of these leaves the selection alone. The first that was pressed in
/// this order counts. The arrows ask for nothing.
pub proof fn law_what_the_keys_do(o: HistoryOverlay, keys: OverlayKeys)
    ensures
        ({
            let a = keyed_action(o, keys);
            let row = o.selected as int;
            let there = row < o.ranked@.len() && o.ranked@[row] < o.cached_entries@.len();
            &&& keys.enter && there ==> a == Some(
                OverlayActionView::Submit(o.cached_entries@[o.ranked@[row] as int].text@),
            )
            &&& keys.enter && !there ==> a == Some(OverlayActionView::Cancel)
            &&& !keys.enter && keys.escape ==> a == Some(OverlayActionView::Cancel)
            &&& !keys.enter && !keys.escape && keys.tab ==> a == Some(
                OverlayActionView::ToggleScope,
            )
            &&& !keys.enter && !keys.escape && !keys.tab ==> a is None
            &&& keys.enter || keys.escape || keys.tab ==> keyed_row(o, keys) == row
        }),
{
}

/// The arrow down selects the next row and the arrow up the one before, and neither
/// leaves the list; both together go down and up again.
pub proof fn law_arrows_stay_in_the_list(o: HistoryOverlay, keys: OverlayKeys)
    requires
        !keys.enter,
        !keys.escape,
        !keys.tab,
        o.selected < o.ranked@.len(),
    ensures
        ({
            let row = keyed_row(o, keys);
            let last = o.ranked@.len() - 1;
            &&& 0 <= row <= last
            &&& keys.arrow_down && !keys.arrow_up ==> row == (if o.selected < last {
                o.selected + 1
            } else {
                last
            })
            &&& keys.arrow_up && !keys.arrow_down ==> row == (if o.selected > 0 {
                o.selected - 1
            } else {
                0
            })
            &&& keys.arrow_up && keys.arrow_down && o.selected < last ==> row == o.selected
            &&& !keys.arrow_up && !keys.arrow_down ==> row == o.selected
        }),
{
}

/// A selection below the list is brought back into it by the arrow down, and in an empty
/// list nothing moves down.
pub proof fn law_arrow_down_finds_the_list(selected: usize, rows: nat)
    ensures
        rows == 0 ==> row_below(selected, rows) == selected,
        rows > 0 && selected >= rows ==> row_below(selected, rows) == rows - 1,
        selected + 1 < rows ==> row_below(selected, rows) == selected + 1,
        row_above(selected as int) == (if selected == 0 {
            0
        } else {
            selected - 1
        }),
{
}

/// The overlay fetches 2000 rows and lists 200 at most.
pub proof fn law_list_is_short(o: HistoryOverlay, cwd: Option<Seq<char>>, ranked: Seq<usize>)
    requires
        is_list_of(o, cwd, ranked),
    ensures
        ranked.len() <= 200,
        FETCH_LIMIT == 2000,
        RANK_LIMIT == 200,
{
}

/// Are these the places of the entries that are kept: in order, each the first of its
/// text?
pub open spec fn kept_places(entries: Seq<Entry>, places: Seq<int>) -> bool {
    &&& places.len() == deduped(entries).len()
    &&& forall|k: int|
        0 <= k < places.len() ==> 0 <= #[trigger] places[k] < entries.len() && deduped(entries)[k]
            == entries[places[k]] && !has_text(entries.take(places[k]), entries[places[k]].text@)
    &&& forall|i: int, j: int| 0 <= i < j < places.len() ==> #[trigger] places[i] < #[trigger] places[j]
}

/// Of the entries with one text the first is kept, which is the most recent, and the
/// entries that are kept keep their order.
pub proof fn law_first_of_each_text_is_kept(entries: Seq<Entry>)
    ensures
        exists|places: Seq<int>| #[trigger] kept_places(entries, places),
    decreases entries.len(),
{
    if entries.len() == 0 {
        assert(kept_places(entries, Seq::empty()));
    } else {
        let init = entries.drop_last();
        law_first_of_each_text_is_kept(init);
        let places = choose|places: Seq<int>| #[trigger] kept_places(init, places);
        assert forall|k: int| 0 <= k < places.len() implies entries.take(#[trigger] places[k])
            == init.take(places[k]) by {
            assert(entries.take(places[k]) =~= init.take(places[k]));
        }
        if has_text(init, entries.last().text@) {
            assert(kept_places(entries, places));
        } else {
            let n = entries.len() - 1;
            let all = places.push(n);
            assert(entries.take(n) =~= init);
            assert forall|k: int| 0 <= k < all.len() implies 0 <= #[trigger] all[k] < entries.len()
                && deduped(entries)[k] == entries[all[k]] && !has_text(
                entries.take(all[k]),
                entries[all[k]].text@,
            ) by {
                if k < places.len() {
                    assert(all[k] == places[k]);
                }
            }
            assert forall|i: int, j: int| 0 <= i < j < all.len() implies #[trigger] all[i]
                < #[trigger] all[j] by {
                assert(all[i] == places[i]);
                if j < places.len() {
                    assert(all[j] == places[j]);
                }
            }
            assert(kept_places(entries, all));
        }
    }
}

/// What is shown as a hit is the query: the bytes of the text in lower case there are
/// those of the query in lower case.
pub proof fn law_hits_are_the_query(
    text: Seq<u8>,
    hay: Seq<u8>,
    needle: Seq<u8>,
    cursor: int,
    k: int,
)
    requires
        text.len() == hay.len() <= usize::MAX,
        needle.len() > 0,
        0 <= cursor <= text.len(),
        0 <= k < hit_sections(text, hay, needle, cursor).len(),
    ensures
        ({
            let s = hit_sections(text, hay, needle, cursor)[k];
            s.hit ==> s.end == s.start + needle.len() && s.end <= hay.len() && hay.subrange(
                s.start as int,
                s.end as int,
            ) == needle
        }),
    decreases text.len() - cursor,
{
    let all = hit_sections(text, hay, needle, cursor);
    if cursor < text.len() {
        lemma_first_occurrence(hay, needle, cursor);
        if let Some(at) = first_occurrence(hay, needle, cursor) {
            let end = at + needle.len();
            if is_char_boundary(text, at) && is_char_boundary(text, end) {
                let rest = hit_sections(text, hay, needle, end);
                let plain = if at > cursor {
                    seq![section(cursor, at, false)]
                } else {
                    Seq::empty()
                };
                assert(all == plain + seq![section(at, end, true)] + rest);
                if k > plain.len() {
                    assert(all[k] == rest[k - plain.len() - 1]);
                    law_hits_are_the_query(text, hay, needle, end, k - plain.len() - 1);
                } else if k == plain.len() {
                    assert(all[k] == section(at, end, true));
                } else {
                    assert(all[k] == section(cursor, at, false));
                }
            }
        }
    }
}

/// No occurrence of the query is left plain, where none would cut a character of the
/// text.
pub proof fn law_no_hit_is_left_plain(
    text: Seq<u8>,
    hay: Seq<u8>,
    needle: Seq<u8>,
    cursor: int,
    k: int,
    p: int,
)
    requires
        text.len() == hay.len() <= usize::MAX,
        needle.len() > 0,
        0 <= cursor <= text.len(),
        forall|q: int|
            #[trigger] occurs_at(hay, needle, q) ==> is_char_boundary(text, q) && is_char_boundary(
                text,
                q + needle.len(),
            ),
        0 <= k < hit_sections(text, hay, needle, cursor).len(),
        occurs_at(hay, needle, p),
    ensures
        ({
            let s = hit_sections(text, hay, needle, cursor)[k];
            !s.hit ==> !(s.start <= p && p + needle.len() <= s.end)
        }),
    decreases text.len() - cursor,
{
    let all = hit_sections(text, hay, needle, cursor);
    if cursor < text.len() {
        lemma_first_occurrence(hay, needle, cursor);
        if let Some(at) = first_occurrence(hay, needle, cursor) {
            let end = at + needle.len();
            assert(occurs_at(hay, needle, at));
            let rest = hit_sections(text, hay, needle, end);
            let plain = if at > cursor {
                seq![section(cursor, at, false)]
            } else {
                Seq::empty()
            };
            assert(all == plain + seq![section(at, end, true)] + rest);
            if k > plain.len() {
                assert(all[k] == rest[k - plain.len() - 1]);
                law_no_hit_is_left_plain(text, hay, needle, end, k - plain.len() - 1, p);
            } else if k == plain.len() {
                assert(all[k] == section(at, end, true));
            } else {
                assert(all[k] == section(cursor, at, false));
            }
        }
    }
}

/// Where there is no query, and where the text in lower case has another length, the
/// whole text is shown plain.
pub proof fn law_plain_texts(text: Seq<char>, query: Seq<char>, hay: Seq<char>, needle: Seq<char>)
    ensures
        query.len() == 0 || encode_utf8(hay).len() != encode_utf8(text).len() ==> {
            let shown = lowered_sections(text, query, hay, needle);
            shown.len() == 1 && !shown[0].hit && shown[0].start == 0 && shown[0].end == encode_utf8(
                text,
            ).len() as usize
        },
        query.len() > 0 && encode_utf8(hay).len() == encode_utf8(text).len() ==> lowered_sections(
            text,
            query,
            hay,
            needle,
        ) == hit_sections(encode_utf8(text), encode_utf8(hay), encode_utf8(needle), 0),
{
}

/// Ages are told in minutes, hours, days, weeks, months and years, in whole ones; the
/// first minute is now, and the second day is yesterday.
pub proof fn law_ages(secs: int, n: nat)
    requires
        secs >= 0,
    ensures
        secs < 60 ==> age_labels(secs) == ("now"@, "just now"@),
        1 <= n < 60 && 60 * n <= secs < 60 * (n + 1) ==> age_labels(secs) == (
            decimal(n) + "m"@,
            ago(n as int, "minute"@),
        ),
        1 <= n < 24 && 3600 * n <= secs < 3600 * (n + 1) ==> age_labels(secs) == (
            decimal(n) + "h"@,
            ago(n as int, "hour"@),
        ),
        86_400 <= secs < 172_800 ==> age_labels(secs) == ("1d"@, "yesterday"@),
        2 <= n < 7 && 86_400 * n <= secs < 86_400 * (n + 1) ==> age_labels(secs) == (
            decimal(n) + "d"@,
            ago(n as int, "day"@),
        ),
        1 <= n && 604_800 * n <= secs < 604_800 * (n + 1) && secs < 2_592_000 ==> age_labels(secs)
            == (decimal(n) + "w"@, ago(n as int, "week"@)),
        1 <= n && 2_592_000 * n <= secs < 2_592_000 * (n + 1) && secs < 31_536_000 ==> age_labels(
            secs,
        ) == (decimal(n) + "mo"@, ago(n as int, "month"@)),
        1 <= n && 31_536_000 * n <= secs < 31_536_000 * (n + 1) ==> age_labels(secs) == (
            decimal(n) + "y"@,
            ago(n as int, "year"@),
        ),
{
    let mins = secs / 60;
    let hours = mins / 60;
    let days = hours / 24;
    assert(hours == secs / 3600);
    assert(days == secs / 86_400);
    assert(days / 7 == secs / 604_800);
    assert(days / 30 == secs / 2_592_000);
    assert(days / 365 == secs / 31_536_000);
}

/// One is told in the singular, any other number in the plural; and the time between two
/// moments is told in whole seconds, with what lies ahead told as now.
pub proof fn law_ages_in_words(n: int, unit: Seq<char>, now_ms: i64, then_ms: i64, secs: int)
    ensures
        ago(1, unit) == "1 "@ + unit + " ago"@,
        n != 1 ==> ago(n, unit) == decimal_int(n) + " "@ + unit + "s ago"@,
        then_ms >= now_ms ==> elapsed_secs(now_ms, then_ms) == 0,
        secs >= 0 && then_ms + 1000 * secs <= now_ms < then_ms + 1000 * (secs + 1) ==> elapsed_secs(
            now_ms,
            then_ms,
        ) == secs,
{
}

/// Each row of the list shows the entry of its place, and the selected one is the one
/// whose place is selected; the rows stand in order, and none is missing whose entry is
/// there.
pub proof fn law_rows_show_the_list(ranked: Seq<usize>, entries: nat, selected: usize, i: int)
    requires
        ranked.len() <= usize::MAX,
    ensures
        ({
            let rows = rows_of(ranked, entries, selected);
            &&& rows.len() <= ranked.len()
            &&& forall|k: int|
                0 <= k < rows.len() ==> {
                    let r = #[trigger] rows[k];
                    r.row < ranked.len() && r.entry == ranked[r.row as int] && r.entry < entries
                        && r.is_selected == (r.row == selected)
                }
            &&& forall|k: int, m: int|
                0 <= k < m < rows.len() ==> (#[trigger] rows[k]).row < (#[trigger] rows[m]).row
            &&& 0 <= i < ranked.len() && ranked[i] < entries ==> exists|k: int|
                0 <= k < rows.len() && (#[trigger] rows[k]).row == i
        }),
    decreases ranked.len(),
{
    let rows = rows_of(ranked, entries, selected);
    if ranked.len() > 0 {
        let init = ranked.drop_last();
        let rest = rows_of(init, entries, selected);
        law_rows_show_the_list(init, entries, selected, i);
        assert forall|k: int| 0 <= k < rows.len() implies ({
            let r = #[trigger] rows[k];
            r.row < ranked.len() && r.entry == ranked[r.row as int] && r.entry < entries
                && r.is_selected == (r.row == selected)
        }) by {
            if k < rest.len() {
                assert(rows[k] == rest[k]);
                assert(init[rest[k].row as int] == ranked[rest[k].row as int]);
            }
        }
        assert forall|k: int, m: int| 0 <= k < m < rows.len() implies (#[trigger] rows[k]).row < (
        #[trigger] rows[m]).row by {
            assert(rows[k] == rest[k]);
            if m < rest.len() {
                assert(rows[m] == rest[m]);
            }
        }
        if 0 <= i < ranked.len() && ranked[i] < entries {
            if i < init.len() {
                let k = choose|k: int| 0 <= k < rest.len() && (#[trigger] rest[k]).row == i;
                assert(rows[k] == rest[k]);
            } else {
                assert(rows[rest.len() as int].row == i);
            }
        }
    }
}

/// A row tells the directory where it is known, then the exit code where there is one,
/// then the source unless the command was run here; and nothing else.
pub proof fn law_what_a_row_tells(e: Entry)
    ensures
        ({
            let labels = row_labels(e);
            let dir = if e.cwd is Some {
                1int
            } else {
                0
            };
            let exit = if e.exit_code is Some {
                1int
            } else {
                0
            };
            let foreign = if e.source@ != "termica"@ {
                1int
            } else {
                0
            };
            &&& labels.len() == dir + exit + foreign
            &&& e.cwd is Some ==> labels[0] == e.cwd.unwrap()@
            &&& e.exit_code is Some ==> labels[dir] == "exit "@ + decimal_int(
                e.exit_code.unwrap() as int,
            )
            &&& e.source@ != "termica"@ ==> labels[dir + exit] == e.source@
        }),
{
}

/// What [`format_age`] says of the first minute, of a number of minutes, and of a number
/// of hours.
pub proof fn law_ages_as_told(now_ms: i64, then_ms: i64, n: nat, r: (String, String))
    requires
        call_ensures(format_age, (now_ms, then_ms), r),
    ensures
        now_ms < then_ms + 60_000 ==> r.0@ == "now"@ && r.1@ == "just now"@,
        1 <= n < 60 && then_ms + 60_000 * n <= now_ms < then_ms + 60_000 * (n + 1) ==> r.0@
            == decimal(n) + "m"@ && r.1@ == ago(n as int, "minute"@),
        1 <= n < 24 && then_ms + 3_600_000 * n <= now_ms < then_ms + 3_600_000 * (n + 1) ==> r.0@
            == decimal(n) + "h"@ && r.1@ == ago(n as int, "hour"@),
{
    let secs = elapsed_secs(now_ms, then_ms);
    law_ages(secs, n);
}

/// What [`dedupe_by_text`] keeps: nothing twice, and every text.
pub proof fn law_texts_as_kept(entries: Vec<Entry>, out: Vec<Entry>, i: int, j: int)
    requires
        call_ensures(dedupe_by_text, (entries,), out),
    ensures
        0 <= i < j < out@.len() ==> out@[i].text@ != out@[j].text@,
        0 <= i < entries@.len() ==> exists|k: int|
            0 <= k < out@.len() && (#[trigger] out@[k]).text@ == entries@[i].text@,
        0 <= i < out@.len() ==> entries@.contains(out@[i]),
        entries@.len() > 0 ==> out@.len() > 0 && out@[0] == entries@[0],
{
    law_deduped_texts_are_distinct(entries@);
    law_first_of_each_text_is_kept(entries@);
    let places = choose|places: Seq<int>| #[trigger] kept_places(entries@, places);
    if 0 <= i < entries@.len() {
        law_dedupe_keeps_every_text(entries@, entries@[i].text@);
        assert(has_text(entries@, entries@[i].text@));
    }
    if 0 <= i < out@.len() {
        assert(out@[i] == entries@[places[i]]);
    }
    if entries@.len() > 0 {
        let first = entries@[0].text@;
        assert(has_text(entries@, first));
        law_dedupe_keeps_every_text(entries@, first);
        let k = choose|k: int| 0 <= k < out@.len() && (#[trigger] out@[k]).text@ == first;
        assert(places[k] == 0) by {
            if places[k] > 0 {
                let before = entries@.take(places[k]);
                assert(before[0] == entries@[0]);
                assert(has_text(before, first));
            }
        }
        if k > 0 {
            assert(places[0] < places[k]);
        }
    }
}

/// The list answers the query: each entry in it holds every word of the query, whatever
/// the case, and the entries of the current directory come first.
pub proof fn law_list_answers_the_query(
    o: HistoryOverlay,
    here: Seq<char>,
    ranked: Seq<usize>,
    i: int,
    j: int,
    w: int,
)
    requires
        is_list_of(o, Some(here), ranked),
        0 <= i < j < ranked.len(),
        0 <= w < words_of(o.query@).len(),
        o.cached_entries@.len() <= usize::MAX,
    ensures
        ranked[i] < o.cached_entries@.len(),
        occurs(
            lowercase_chars(o.cached_entries@[ranked[i] as int].text@),
            lowercase_chars(words_of(o.query@)[w]),
        ),
        (o.cached_entries@[ranked[j] as int].cwd matches Some(c) && c@ == here) ==> (
        o.cached_entries@[ranked[i] as int].cwd matches Some(c) && c@ == here),
{
    let entries = o.cached_entries@;
    let words = query_words(o.query@);
    law_ranking_holds_what_matches(
        entries,
        lowered_texts(entries),
        words,
        Some(here),
        RANK_LIMIT as nat,
        ranked,
        0,
    );
    law_what_decides_a_ranking(
        entries,
        lowered_texts(entries),
        words,
        Some(here),
        RANK_LIMIT as nat,
        ranked,
        i,
        j,
    );
    law_case_does_not_matter(o.query@, entries, w);
    law_case_does_not_matter(o.query@, entries, ranked[i] as int);
    assert(occurs(lowered_texts(entries)[ranked[i] as int], words[w]));
}

} // verus!
