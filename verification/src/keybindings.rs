//! The list of keyboard shortcuts.

use crate::text::{chars_occur, chars_of, lowercase, lowercase_chars, occurs};
use vstd::prelude::*;

verus! {

/// One key of a chord.
#[derive(Debug, Clone, Copy, PartialEq, Eq)]
pub enum Cap {
    /// Command on macOS.
    Cmd,
    Ctrl,
    Shift,
    /// Option on macOS, Alt elsewhere; the label says which.
    Alt(&'static str),
    /// A key by its label.
    Key(&'static str),
}

/// A shortcut: the chord and what it does.
#[derive(Debug, Clone)]
pub struct Shortcut {
    pub keys: Vec<Cap>,
    pub desc: &'static str,
}

/// A titled group of shortcuts.
#[derive(Debug, Clone)]
pub struct ShortcutGroup {
    pub title: &'static str,
    pub items: Vec<Shortcut>,
}

/// A key of a chord, as mathematics.
pub enum CapView {
    Cmd,
    Ctrl,
    Shift,
    Alt(Seq<char>),
    Key(Seq<char>),
}

/// A shortcut, as mathematics.
#[verifier::ext_equal]
pub struct ShortcutView {
    pub keys: Seq<CapView>,
    pub desc: Seq<char>,
}

/// A group, as mathematics.
#[verifier::ext_equal]
pub struct GroupView {
    pub title: Seq<char>,
    pub items: Seq<ShortcutView>,
}

/// The view of a key.
pub open spec fn cap_view(c: Cap) -> CapView {
    match c {
        Cap::Cmd => CapView::Cmd,
        Cap::Ctrl => CapView::Ctrl,
        Cap::Shift => CapView::Shift,
        Cap::Alt(s) => CapView::Alt(s@),
        Cap::Key(s) => CapView::Key(s@),
    }
}

/// The view of a chord.
pub open spec fn caps_view(keys: Seq<Cap>) -> Seq<CapView> {
    keys.map_values(|c: Cap| cap_view(c))
}

/// The view of a shortcut.
pub open spec fn shortcut_view(s: Shortcut) -> ShortcutView {
    ShortcutView { keys: caps_view(s.keys@), desc: s.desc@ }
}

/// The view of shortcuts.
pub open spec fn shortcuts_view(items: Seq<Shortcut>) -> Seq<ShortcutView> {
    items.map_values(|s: Shortcut| shortcut_view(s))
}

/// The view of a group.
pub open spec fn group_view(g: ShortcutGroup) -> GroupView {
    GroupView { title: g.title@, items: shortcuts_view(g.items@) }
}

/// The view of groups.
pub open spec fn groups_view(groups: Seq<ShortcutGroup>) -> Seq<GroupView> {
    groups.map_values(|g: ShortcutGroup| group_view(g))
}

// ---- the list ----------------------------------------------------------

/// A shortcut.
pub open spec fn shortcut(keys: Seq<CapView>, desc: Seq<char>) -> ShortcutView {
    ShortcutView { keys, desc }
}

/// The chord of the application: Cmd on macOS, Ctrl+Shift elsewhere.
pub open spec fn app_chord(is_macos: bool, key: Seq<char>) -> Seq<CapView> {
    if is_macos {
        seq![CapView::Cmd, CapView::Key(key)]
    } else {
        seq![CapView::Ctrl, CapView::Shift, CapView::Key(key)]
    }
}

/// The chord of the editor: Cmd on macOS, Ctrl elsewhere.
pub open spec fn edit_chord(is_macos: bool, key: Seq<char>) -> Seq<CapView> {
    if is_macos {
        seq![CapView::Cmd, CapView::Key(key)]
    } else {
        seq![CapView::Ctrl, CapView::Key(key)]
    }
}

/// The command modifier of the platform.
pub open spec fn command_cap(is_macos: bool) -> CapView {
    if is_macos {
        CapView::Cmd
    } else {
        CapView::Ctrl
    }
}

/// Option on macOS, Alt elsewhere.
pub open spec fn option_cap(is_macos: bool) -> CapView {
    if is_macos {
        CapView::Alt("Option"@)
    } else {
        CapView::Alt("Alt"@)
    }
}

/// The command modifier with Shift.
pub open spec fn shifted_chord(is_macos: bool, key: Seq<char>) -> Seq<CapView> {
    seq![command_cap(is_macos), CapView::Shift, CapView::Key(key)]
}

/// The command modifier with Option or Alt.
pub open spec fn option_chord(is_macos: bool, key: Seq<char>) -> Seq<CapView> {
    seq![command_cap(is_macos), option_cap(is_macos), CapView::Key(key)]
}

/// The group "Window & tabs".
pub open spec fn window_group(is_macos: bool) -> GroupView {
    GroupView {
        title: "Window & tabs"@,
        items: seq![
            shortcut(app_chord(is_macos, "T"@), "New tab"@),
            shortcut(app_chord(is_macos, "W"@), "Close tab"@),
            shortcut(shifted_chord(is_macos, "]"@), "Next tab"@),
            shortcut(shifted_chord(is_macos, "["@), "Previous tab"@),
            shortcut(app_chord(is_macos, "K"@), "Clear scrollback"@),
            shortcut(app_chord(is_macos, "Q"@), "Quit"@),
        ],
    }
}

/// The group "Scroll & select".
pub open spec fn scroll_group(is_macos: bool) -> GroupView {
    GroupView {
        title: "Scroll & select"@,
        items: seq![
            shortcut(option_chord(is_macos, "Up"@), "Scroll to top"@),
            shortcut(option_chord(is_macos, "Down"@), "Scroll to bottom"@),
            shortcut(shifted_chord(is_macos, "C"@), "Copy selection"@),
        ],
    }
}

/// The group "Find & history".
pub open spec fn find_group(is_macos: bool) -> GroupView {
    GroupView {
        title: "Find & history"@,
        items: seq![
            shortcut(app_chord(is_macos, "F"@), "Find in pane"@),
            shortcut(edit_chord(is_macos, "R"@), "History search"@),
            shortcut(seq![CapView::Key("Up"@)], "Recall previous command"@),
            shortcut(seq![CapView::Key("Down"@)], "Recall next command"@),
            shortcut(seq![CapView::Key("Tab"@)], "Completion popup"@),
            shortcut(edit_chord(is_macos, "/"@), "This shortcuts list"@),
        ],
    }
}

/// The group "Prompt editor".
pub open spec fn editor_group(is_macos: bool) -> GroupView {
    GroupView {
        title: "Prompt editor"@,
        items: seq![
            shortcut(seq![CapView::Key("Enter"@)], "Run command"@),
            shortcut(seq![CapView::Shift, CapView::Key("Enter"@)], "Insert newline"@),
            shortcut(seq![CapView::Key("Esc"@)], "Leave editor"@),
            shortcut(seq![CapView::Ctrl, CapView::Key("A"@)], "Caret to line start"@),
            shortcut(seq![CapView::Ctrl, CapView::Key("E"@)], "Caret to line end"@),
            shortcut(seq![CapView::Ctrl, CapView::Key("T"@)], "Transpose characters"@),
            shortcut(seq![option_cap(is_macos), CapView::Key("Left"@)], "Caret one word left"@),
            shortcut(seq![option_cap(is_macos), CapView::Key("Right"@)], "Caret one word right"@),
            shortcut(edit_chord(is_macos, "Z"@), "Undo"@),
            shortcut(shifted_chord(is_macos, "Z"@), "Redo"@),
        ],
    }
}

/// All the groups.
pub open spec fn all_groups(is_macos: bool) -> Seq<GroupView> {
    seq![
        window_group(is_macos),
        scroll_group(is_macos),
        find_group(is_macos),
        editor_group(is_macos),
    ]
}

/// A shortcut of a chord and what it does.
pub fn sc(keys: Vec<Cap>, desc: &'static str) -> (r: Shortcut)
    ensures
        r.keys@ == keys@,
        r.desc@ == desc@,
{
    Shortcut { keys, desc }
}

/// A chord of one key.
fn one(a: Cap) -> (r: Vec<Cap>)
    ensures
        caps_view(r@) == seq![cap_view(a)],
{
    let r = vec![a];
    assert(caps_view(r@) =~= seq![cap_view(a)]);
    r
}

/// A chord of two keys.
fn two(a: Cap, b: Cap) -> (r: Vec<Cap>)
    ensures
        caps_view(r@) == seq![cap_view(a), cap_view(b)],
{
    let r = vec![a, b];
    assert(caps_view(r@) =~= seq![cap_view(a), cap_view(b)]);
    r
}

/// A chord of three keys.
fn three(a: Cap, b: Cap, c: Cap) -> (r: Vec<Cap>)
    ensures
        caps_view(r@) == seq![cap_view(a), cap_view(b), cap_view(c)],
{
    let r = vec![a, b, c];
    assert(caps_view(r@) =~= seq![cap_view(a), cap_view(b), cap_view(c)]);
    r
}

/// The chord of the application.
fn app(is_macos: bool, key: &'static str) -> (r: Vec<Cap>)
    ensures
        caps_view(r@) == app_chord(is_macos, key@),
{
    if is_macos {
        two(Cap::Cmd, Cap::Key(key))
    } else {
        three(Cap::Ctrl, Cap::Shift, Cap::Key(key))
    }
}

/// The chord of the editor.
fn edit(is_macos: bool, key: &'static str) -> (r: Vec<Cap>)
    ensures
        caps_view(r@) == edit_chord(is_macos, key@),
{
    if is_macos {
        two(Cap::Cmd, Cap::Key(key))
    } else {
        two(Cap::Ctrl, Cap::Key(key))
    }
}

/// Option or Alt.
fn option(is_macos: bool) -> (r: Cap)
    ensures
        cap_view(r) == option_cap(is_macos),
{
    if is_macos {
        Cap::Alt("Option")
    } else {
        Cap::Alt("Alt")
    }
}

/// The command modifier with Shift.
fn shifted(is_macos: bool, key: &'static str) -> (r: Vec<Cap>)
    ensures
        caps_view(r@) == shifted_chord(is_macos, key@),
{
    if is_macos {
        three(Cap::Cmd, Cap::Shift, Cap::Key(key))
    } else {
        three(Cap::Ctrl, Cap::Shift, Cap::Key(key))
    }
}

/// The command modifier with Option or Alt.
fn with_option(is_macos: bool, key: &'static str) -> (r: Vec<Cap>)
    ensures
        caps_view(r@) == option_chord(is_macos, key@),
{
    if is_macos {
        three(Cap::Cmd, option(is_macos), Cap::Key(key))
    } else {
        three(Cap::Ctrl, option(is_macos), Cap::Key(key))
    }
}

/// The group "Window & tabs".
fn window_shortcuts(is_macos: bool) -> (r: ShortcutGroup)
    ensures
        group_view(r) == window_group(is_macos),
{
    let items = vec![
        sc(app(is_macos, "T"), "New tab"),
        sc(app(is_macos, "W"), "Close tab"),
        sc(shifted(is_macos, "]"), "Next tab"),
        sc(shifted(is_macos, "["), "Previous tab"),
        sc(app(is_macos, "K"), "Clear scrollback"),
        sc(app(is_macos, "Q"), "Quit"),
    ];
    assert(shortcuts_view(items@) =~= window_group(is_macos).items);
    ShortcutGroup { title: "Window & tabs", items }
}

/// The group "Scroll & select".
fn scroll_shortcuts(is_macos: bool) -> (r: ShortcutGroup)
    ensures
        group_view(r) == scroll_group(is_macos),
{
    let items = vec![
        sc(with_option(is_macos, "Up"), "Scroll to top"),
        sc(with_option(is_macos, "Down"), "Scroll to bottom"),
        sc(shifted(is_macos, "C"), "Copy selection"),
    ];
    assert(shortcuts_view(items@) =~= scroll_group(is_macos).items);
    ShortcutGroup { title: "Scroll & select", items }
}

/// The group "Find & history".
fn find_shortcuts(is_macos: bool) -> (r: ShortcutGroup)
    ensures
        group_view(r) == find_group(is_macos),
{
    let items = vec![
        sc(app(is_macos, "F"), "Find in pane"),
        sc(edit(is_macos, "R"), "History search"),
        sc(one(Cap::Key("Up")), "Recall previous command"),
        sc(one(Cap::Key("Down")), "Recall next command"),
        sc(one(Cap::Key("Tab")), "Completion popup"),
        sc(edit(is_macos, "/"), "This shortcuts list"),
    ];
    assert(shortcuts_view(items@) =~= find_group(is_macos).items);
    ShortcutGroup { title: "Find & history", items }
}

/// The group "Prompt editor".
fn editor_shortcuts(is_macos: bool) -> (r: ShortcutGroup)
    ensures
        group_view(r) == editor_group(is_macos),
{
    let items = vec![
        sc(one(Cap::Key("Enter")), "Run command"),
        sc(two(Cap::Shift, Cap::Key("Enter")), "Insert newline"),
        sc(one(Cap::Key("Esc")), "Leave editor"),
        sc(two(Cap::Ctrl, Cap::Key("A")), "Caret to line start"),
        sc(two(Cap::Ctrl, Cap::Key("E")), "Caret to line end"),
        sc(two(Cap::Ctrl, Cap::Key("T")), "Transpose characters"),
        sc(two(option(is_macos), Cap::Key("Left")), "Caret one word left"),
        sc(two(option(is_macos), Cap::Key("Right")), "Caret one word right"),
        sc(edit(is_macos, "Z"), "Undo"),
        sc(shifted(is_macos, "Z"), "Redo"),
    ];
    assert(shortcuts_view(items@) =~= editor_group(is_macos).items);
    ShortcutGroup { title: "Prompt editor", items }
}

/// The list of shortcuts, as the platform has them.
pub fn shortcut_groups(is_macos: bool) -> (r: Vec<ShortcutGroup>)
    ensures
        groups_view(r@) == all_groups(is_macos),
{
    let r = vec![
        window_shortcuts(is_macos),
        scroll_shortcuts(is_macos),
        find_shortcuts(is_macos),
        editor_shortcuts(is_macos),
    ];
    assert(groups_view(r@) =~= all_groups(is_macos));
    r
}

// ---- the filter --------------------------------------------------------

/// The label of a key.
pub open spec fn cap_label(c: CapView) -> Seq<char> {
    match c {
        CapView::Cmd => "Cmd"@,
        CapView::Ctrl => "Ctrl"@,
        CapView::Shift => "Shift"@,
        CapView::Alt(s) => s,
        CapView::Key(s) => s,
    }
}

/// The label of a key.
pub fn cap_text(cap: &Cap) -> (r: &'static str)
    ensures
        r@ == cap_label(cap_view(*cap)),
{
    match cap {
        Cap::Cmd => "Cmd",
        Cap::Ctrl => "Ctrl",
        Cap::Shift => "Shift",
        Cap::Alt(s) => *s,
        Cap::Key(s) => *s,
    }
}

/// The label that is drawn on a key; Command is drawn as a symbol.
pub fn drawn_label(cap: &Cap) -> (r: Option<&'static str>)
    ensures
        (r is None) == (cap_view(*cap) is Cmd),
        r is Some ==> r.unwrap()@ == cap_label(cap_view(*cap)),
{
    match cap {
        Cap::Cmd => None,
        _ => Some(cap_text(cap)),
    }
}

/// Does a text in lower case hold the query? An empty query is held by any.
pub fn label_matches(lowered: &str, query_lower: &str) -> (r: bool)
    ensures
        r == occurs(lowered@, query_lower@),
{
    let hay = chars_of(lowered);
    let needle = chars_of(query_lower);
    chars_occur(hay.as_slice(), needle.as_slice())
}

/// Does a shortcut match a query in lower case: is the query empty, or held
/// by the description or by the label of a key, in lower case?
pub open spec fn matches_query(s: ShortcutView, query: Seq<char>) -> bool {
    ||| query.len() == 0
    ||| occurs(lowercase_chars(s.desc), query)
    ||| exists|i: int|
        0 <= i < s.keys.len() && occurs(lowercase_chars(cap_label(#[trigger] s.keys[i])), query)
}

/// Does a shortcut match a query in lower case?
pub fn shortcut_matches(shortcut: &Shortcut, query_lower: &str) -> (r: bool)
    ensures
        r == matches_query(shortcut_view(*shortcut), query_lower@),
{
    if query_lower.is_empty() {
        return true;
    }
    let desc = lowercase(shortcut.desc);
    if label_matches(desc.as_str(), query_lower) {
        return true;
    }
    let ghost view = shortcut_view(*shortcut);
    let mut i: usize = 0;
    while i < shortcut.keys.len()
        invariant
            i <= shortcut.keys@.len(),
            view == shortcut_view(*shortcut),
            query_lower@.len() > 0,
            !occurs(lowercase_chars(view.desc), query_lower@),
            forall|j: int|
                0 <= j < i ==> !occurs(
                    lowercase_chars(cap_label(#[trigger] view.keys[j])),
                    query_lower@,
                ),
        decreases shortcut.keys@.len() - i,
    {
        let label = lowercase(cap_text(&shortcut.keys[i]));
        assert(view.keys[i as int] == cap_view(shortcut.keys@[i as int]));
        if label_matches(label.as_str(), query_lower) {
            return true;
        }
        i += 1;
    }
    false
}

/// The shortcuts of a list that match a query.
pub open spec fn matching(items: Seq<ShortcutView>, query: Seq<char>) -> Seq<ShortcutView>
    decreases items.len(),
{
    if items.len() == 0 {
        Seq::empty()
    } else {
        let rest = matching(items.drop_last(), query);
        if matches_query(items.last(), query) {
            rest.push(items.last())
        } else {
            rest
        }
    }
}

/// The groups with the shortcuts that match a query, without those of which
/// none does.
pub open spec fn matching_of(groups: Seq<GroupView>, query: Seq<char>) -> Seq<GroupView>
    decreases groups.len(),
{
    if groups.len() == 0 {
        Seq::empty()
    } else {
        let rest = matching_of(groups.drop_last(), query);
        let items = matching(groups.last().items, query);
        if items.len() > 0 {
            rest.push(GroupView { title: groups.last().title, items })
        } else {
            rest
        }
    }
}

/// A copy of a shortcut.
fn copy_shortcut(s: &Shortcut) -> (r: Shortcut)
    ensures
        shortcut_view(r) == shortcut_view(*s),
{
    let mut keys: Vec<Cap> = Vec::new();
    let mut i: usize = 0;
    while i < s.keys.len()
        invariant
            i <= s.keys@.len(),
            keys@ == s.keys@.take(i as int),
        decreases s.keys@.len() - i,
    {
        keys.push(s.keys[i]);
        i += 1;
        assert(s.keys@.take(i as int) =~= s.keys@.take(i - 1).push(s.keys@[i - 1]));
    }
    assert(keys@ =~= s.keys@);
    Shortcut { keys, desc: s.desc }
}

/// The groups that the list shows for a query in lower case.
pub fn matching_groups(groups: &Vec<ShortcutGroup>, query_lower: &str) -> (r: Vec<ShortcutGroup>)
    ensures
        groups_view(r@) == matching_of(groups_view(groups@), query_lower@),
{
    let mut out: Vec<ShortcutGroup> = Vec::new();
    let ghost views = groups_view(groups@);
    let mut g: usize = 0;
    assert(groups_view(out@) =~= matching_of(views.take(0), query_lower@));
    while g < groups.len()
        invariant
            g <= groups@.len(),
            views == groups_view(groups@),
            groups_view(out@) == matching_of(views.take(g as int), query_lower@),
        decreases groups@.len() - g,
    {
        let group = &groups[g];
        let ghost all = shortcuts_view(group.items@);
        let mut items: Vec<Shortcut> = Vec::new();
        let mut i: usize = 0;
        assert(shortcuts_view(items@) =~= matching(all.take(0), query_lower@));
        while i < group.items.len()
            invariant
                i <= group.items@.len(),
                all == shortcuts_view(group.items@),
                shortcuts_view(items@) == matching(all.take(i as int), query_lower@),
            decreases group.items@.len() - i,
        {
            let ghost before = items@;
            assert(all.take(i + 1).drop_last() =~= all.take(i as int));
            assert(all[i as int] == shortcut_view(group.items@[i as int]));
            if shortcut_matches(&group.items[i], query_lower) {
                items.push(copy_shortcut(&group.items[i]));
                assert(shortcuts_view(items@) =~= shortcuts_view(before).push(all[i as int]));
            }
            i += 1;
        }
        assert(all.take(i as int) =~= all);
        assert(views.take(g + 1).drop_last() =~= views.take(g as int));
        assert(views[g as int] == group_view(groups@[g as int]));
        let ghost shown = out@;
        let ghost kept = shortcuts_view(items@);
        if items.len() > 0 {
            out.push(ShortcutGroup { title: group.title, items });
            assert(groups_view(out@) =~= groups_view(shown).push(
                GroupView { title: group.title@, items: kept },
            ));
        }
        g += 1;
    }
    assert(views.take(g as int) =~= views);
    out
}

/// The groups that the list shows for a query, whatever its case.
pub fn shown_groups(is_macos: bool, query: &str) -> (r: Vec<ShortcutGroup>)
    ensures
        groups_view(r@) == matching_of(all_groups(is_macos), lowercase_chars(query@)),
{
    let groups = shortcut_groups(is_macos);
    let lowered = lowercase(query);
    matching_groups(&groups, lowered.as_str())
}

// ---- laws --------------------------------------------------------------

/// Is a shortcut complete: has it a key and a description?
pub open spec fn complete(s: ShortcutView) -> bool {
    s.keys.len() > 0 && s.desc.len() > 0
}

/// Every group has a title, and every shortcut a key and a description.
pub proof fn law_every_shortcut_is_complete(is_macos: bool, g: int, i: int)
    requires
        0 <= g < all_groups(is_macos).len(),
    ensures
        all_groups(is_macos)[g].title.len() > 0,
        0 <= i < all_groups(is_macos)[g].items.len() ==> complete(
            all_groups(is_macos)[g].items[i],
        ),
{
    reveal_strlit("Window & tabs");
    reveal_strlit("New tab");
    reveal_strlit("Close tab");
    reveal_strlit("Next tab");
    reveal_strlit("Previous tab");
    reveal_strlit("Clear scrollback");
    reveal_strlit("Quit");
    reveal_strlit("Scroll & select");
    reveal_strlit("Scroll to top");
    reveal_strlit("Scroll to bottom");
    reveal_strlit("Copy selection");
    reveal_strlit("Find & history");
    reveal_strlit("Find in pane");
    reveal_strlit("History search");
    reveal_strlit("Recall previous command");
    reveal_strlit("Recall next command");
    reveal_strlit("Completion popup");
    reveal_strlit("This shortcuts list");
    reveal_strlit("Prompt editor");
    reveal_strlit("Run command");
    reveal_strlit("Insert newline");
    reveal_strlit("Leave editor");
    reveal_strlit("Caret to line start");
    reveal_strlit("Caret to line end");
    reveal_strlit("Transpose characters");
    reveal_strlit("Caret one word left");
    reveal_strlit("Caret one word right");
    reveal_strlit("Undo");
    reveal_strlit("Redo");
}

/// Every platform has the same groups with the same entries: only the keys
/// differ.
pub proof fn law_platforms_have_the_same_entries(g: int, i: int)
    requires
        0 <= g < all_groups(true).len(),
    ensures
        all_groups(true).len() == all_groups(false).len(),
        all_groups(true)[g].title == all_groups(false)[g].title,
        all_groups(true)[g].items.len() == all_groups(false)[g].items.len(),
        0 <= i < all_groups(true)[g].items.len() ==> all_groups(true)[g].items[i].desc
            == all_groups(false)[g].items[i].desc,
{
}

/// The Command key is on no list but that of macOS, and each platform has its
/// own name for Option.
pub proof fn law_modifiers_fit_the_platform(is_macos: bool, g: int, i: int, k: int)
    requires
        0 <= g < all_groups(is_macos).len(),
        0 <= i < all_groups(is_macos)[g].items.len(),
        0 <= k < all_groups(is_macos)[g].items[i].keys.len(),
    ensures
        all_groups(is_macos)[g].items[i].keys[k] is Cmd ==> is_macos,
        all_groups(is_macos)[g].items[i].keys[k] is Alt ==> all_groups(is_macos)[g].items[i].keys[k]
            == option_cap(is_macos),
{
}

/// With an empty query the whole list is shown.
pub proof fn law_empty_query_shows_everything(items: Seq<ShortcutView>)
    ensures
        matching(items, Seq::empty()) == items,
    decreases items.len(),
{
    if items.len() > 0 {
        law_empty_query_shows_everything(items.drop_last());
        assert(items.drop_last().push(items.last()) =~= items);
    } else {
        assert(matching(items, Seq::empty()) =~= items);
    }
}

/// All the shortcuts, group by group.
pub open spec fn all_shortcuts(is_macos: bool) -> Seq<ShortcutView> {
    window_group(is_macos).items + scroll_group(is_macos).items + find_group(is_macos).items
        + editor_group(is_macos).items
}

/// A number for a key: what tells the keys of the list apart is their length and first
/// letter.
spec fn key_number(key: CapView) -> int {
    match key {
        CapView::Key(name) => 1000 * name.len() + name[0] as int,
        _ => 0,
    }
}

/// A number for a modifier.
spec fn modifier_number(cap: CapView) -> int {
    match cap {
        CapView::Cmd => 1,
        CapView::Ctrl => 2,
        CapView::Shift => 3,
        CapView::Alt(_) => 4,
        CapView::Key(_) => 0,
    }
}

/// A number for a chord: its modifiers, then its key.
spec fn chord_number(keys: Seq<CapView>) -> int {
    let key = key_number(keys.last());
    if keys.len() == 1 {
        key
    } else if keys.len() == 2 {
        10_000 * modifier_number(keys[0]) + key
    } else {
        100_000 * modifier_number(keys[0]) + 10_000 * modifier_number(keys[1]) + key
    }
}

/// The numbers of the keys.
proof fn lemma_key_numbers()
    ensures
        key_number(CapView::Key("T"@)) == 1084,
        key_number(CapView::Key("W"@)) == 1087,
        key_number(CapView::Key("]"@)) == 1093,
        key_number(CapView::Key("["@)) == 1091,
        key_number(CapView::Key("K"@)) == 1075,
        key_number(CapView::Key("Q"@)) == 1081,
        key_number(CapView::Key("Up"@)) == 2085,
        key_number(CapView::Key("Down"@)) == 4068,
        key_number(CapView::Key("C"@)) == 1067,
        key_number(CapView::Key("F"@)) == 1070,
        key_number(CapView::Key("R"@)) == 1082,
        key_number(CapView::Key("/"@)) == 1047,
        key_number(CapView::Key("Tab"@)) == 3084,
        key_number(CapView::Key("Enter"@)) == 5069,
        key_number(CapView::Key("Esc"@)) == 3069,
        key_number(CapView::Key("A"@)) == 1065,
        key_number(CapView::Key("E"@)) == 1069,
        key_number(CapView::Key("Left"@)) == 4076,
        key_number(CapView::Key("Right"@)) == 5082,
        key_number(CapView::Key("Z"@)) == 1090,
{
    reveal_strlit("T");
    reveal_strlit("W");
    reveal_strlit("]");
    reveal_strlit("[");
    reveal_strlit("K");
    reveal_strlit("Q");
    reveal_strlit("Up");
    reveal_strlit("Down");
    reveal_strlit("C");
    reveal_strlit("F");
    reveal_strlit("R");
    reveal_strlit("/");
    reveal_strlit("Tab");
    reveal_strlit("Enter");
    reveal_strlit("Esc");
    reveal_strlit("A");
    reveal_strlit("E");
    reveal_strlit("Left");
    reveal_strlit("Right");
    reveal_strlit("Z");
}

/// No two shortcuts share a chord.
pub proof fn law_chords_are_distinct(is_macos: bool, i: int, j: int)
    requires
        0 <= i < j < all_shortcuts(is_macos).len(),
    ensures
        all_shortcuts(is_macos)[i].keys != all_shortcuts(is_macos)[j].keys,
{
    lemma_key_numbers();
    assert(chord_number(all_shortcuts(is_macos)[i].keys) != chord_number(
        all_shortcuts(is_macos)[j].keys,
    ));
}

/// Tabs are opened, closed, walked through and cleared, and the program is left, with these keys on each platform.
pub proof fn law_keys_of_the_window_group(is_macos: bool)
    ensures
        all_groups(is_macos).len() == 4,
        all_groups(is_macos)[0].title == "Window & tabs"@,
        all_groups(is_macos)[0].items.len() == 6,
        all_groups(is_macos)[0].items[0].desc == "New tab"@,
        all_groups(is_macos)[0].items[0].keys == (if is_macos {
                seq![CapView::Cmd, CapView::Key("T"@)]
            } else {
                seq![CapView::Ctrl, CapView::Shift, CapView::Key("T"@)]
            }),
        all_groups(is_macos)[0].items[1].desc == "Close tab"@,
        all_groups(is_macos)[0].items[1].keys == (if is_macos {
                seq![CapView::Cmd, CapView::Key("W"@)]
            } else {
                seq![CapView::Ctrl, CapView::Shift, CapView::Key("W"@)]
            }),
        all_groups(is_macos)[0].items[2].desc == "Next tab"@,
        all_groups(is_macos)[0].items[2].keys == (if is_macos {
                seq![CapView::Cmd, CapView::Shift, CapView::Key("]"@)]
            } else {
                seq![CapView::Ctrl, CapView::Shift, CapView::Key("]"@)]
            }),
        all_groups(is_macos)[0].items[3].desc == "Previous tab"@,
        all_groups(is_macos)[0].items[3].keys == (if is_macos {
                seq![CapView::Cmd, CapView::Shift, CapView::Key("["@)]
            } else {
                seq![CapView::Ctrl, CapView::Shift, CapView::Key("["@)]
            }),
        all_groups(is_macos)[0].items[4].desc == "Clear scrollback"@,
        all_groups(is_macos)[0].items[4].keys == (if is_macos {
                seq![CapView::Cmd, CapView::Key("K"@)]
            } else {
                seq![CapView::Ctrl, CapView::Shift, CapView::Key("K"@)]
            }),
        all_groups(is_macos)[0].items[5].desc == "Quit"@,
        all_groups(is_macos)[0].items[5].keys == (if is_macos {
                seq![CapView::Cmd, CapView::Key("Q"@)]
            } else {
                seq![CapView::Ctrl, CapView::Shift, CapView::Key("Q"@)]
            }),
{
}

/// The view is scrolled to its ends, and the selection copied, with these keys on each platform.
pub proof fn law_keys_of_the_scroll_group(is_macos: bool)
    ensures
        all_groups(is_macos).len() == 4,
        all_groups(is_macos)[1].title == "Scroll & select"@,
        all_groups(is_macos)[1].items.len() == 3,
        all_groups(is_macos)[1].items[0].desc == "Scroll to top"@,
        all_groups(is_macos)[1].items[0].keys == (if is_macos {
                seq![CapView::Cmd, CapView::Alt("Option"@), CapView::Key("Up"@)]
            } else {
                seq![CapView::Ctrl, CapView::Alt("Alt"@), CapView::Key("Up"@)]
            }),
        all_groups(is_macos)[1].items[1].desc == "Scroll to bottom"@,
        all_groups(is_macos)[1].items[1].keys == (if is_macos {
                seq![CapView::Cmd, CapView::Alt("Option"@), CapView::Key("Down"@)]
            } else {
                seq![CapView::Ctrl, CapView::Alt("Alt"@), CapView::Key("Down"@)]
            }),
        all_groups(is_macos)[1].items[2].desc == "Copy selection"@,
        all_groups(is_macos)[1].items[2].keys == (if is_macos {
                seq![CapView::Cmd, CapView::Shift, CapView::Key("C"@)]
            } else {
                seq![CapView::Ctrl, CapView::Shift, CapView::Key("C"@)]
            }),
{
}

/// Text and commands are found, with these keys on each platform.
pub proof fn law_keys_of_the_find_group(is_macos: bool)
    ensures
        all_groups(is_macos).len() == 4,
        all_groups(is_macos)[2].title == "Find & history"@,
        all_groups(is_macos)[2].items.len() == 6,
        all_groups(is_macos)[2].items[0].desc == "Find in pane"@,
        all_groups(is_macos)[2].items[0].keys == (if is_macos {
                seq![CapView::Cmd, CapView::Key("F"@)]
            } else {
                seq![CapView::Ctrl, CapView::Shift, CapView::Key("F"@)]
            }),
        all_groups(is_macos)[2].items[1].desc == "History search"@,
        all_groups(is_macos)[2].items[1].keys == (if is_macos {
                seq![CapView::Cmd, CapView::Key("R"@)]
            } else {
                seq![CapView::Ctrl, CapView::Key("R"@)]
            }),
        all_groups(is_macos)[2].items[2].desc == "Recall previous command"@,
        all_groups(is_macos)[2].items[2].keys == (seq![CapView::Key("Up"@)]),
        all_groups(is_macos)[2].items[3].desc == "Recall next command"@,
        all_groups(is_macos)[2].items[3].keys == (seq![CapView::Key("Down"@)]),
        all_groups(is_macos)[2].items[4].desc == "Completion popup"@,
        all_groups(is_macos)[2].items[4].keys == (seq![CapView::Key("Tab"@)]),
        all_groups(is_macos)[2].items[5].desc == "This shortcuts list"@,
        all_groups(is_macos)[2].items[5].keys == (if is_macos {
                seq![CapView::Cmd, CapView::Key("/"@)]
            } else {
                seq![CapView::Ctrl, CapView::Key("/"@)]
            }),
{
}

/// A line is written and sent, with these keys on each platform.
pub proof fn law_keys_of_the_editor_group(is_macos: bool)
    ensures
        all_groups(is_macos).len() == 4,
        all_groups(is_macos)[3].title == "Prompt editor"@,
        all_groups(is_macos)[3].items.len() == 10,
        all_groups(is_macos)[3].items[0].desc == "Run command"@,
        all_groups(is_macos)[3].items[0].keys == (seq![CapView::Key("Enter"@)]),
        all_groups(is_macos)[3].items[1].desc == "Insert newline"@,
        all_groups(is_macos)[3].items[1].keys == (seq![CapView::Shift, CapView::Key("Enter"@)]),
        all_groups(is_macos)[3].items[2].desc == "Leave editor"@,
        all_groups(is_macos)[3].items[2].keys == (seq![CapView::Key("Esc"@)]),
        all_groups(is_macos)[3].items[3].desc == "Caret to line start"@,
        all_groups(is_macos)[3].items[3].keys == (seq![CapView::Ctrl, CapView::Key("A"@)]),
        all_groups(is_macos)[3].items[4].desc == "Caret to line end"@,
        all_groups(is_macos)[3].items[4].keys == (seq![CapView::Ctrl, CapView::Key("E"@)]),
        all_groups(is_macos)[3].items[5].desc == "Transpose characters"@,
        all_groups(is_macos)[3].items[5].keys == (seq![CapView::Ctrl, CapView::Key("T"@)]),
        all_groups(is_macos)[3].items[6].desc == "Caret one word left"@,
        all_groups(is_macos)[3].items[6].keys == (if is_macos {
                seq![CapView::Alt("Option"@), CapView::Key("Left"@)]
            } else {
                seq![CapView::Alt("Alt"@), CapView::Key("Left"@)]
            }),
        all_groups(is_macos)[3].items[7].desc == "Caret one word right"@,
        all_groups(is_macos)[3].items[7].keys == (if is_macos {
                seq![CapView::Alt("Option"@), CapView::Key("Right"@)]
            } else {
                seq![CapView::Alt("Alt"@), CapView::Key("Right"@)]
            }),
        all_groups(is_macos)[3].items[8].desc == "Undo"@,
        all_groups(is_macos)[3].items[8].keys == (if is_macos {
                seq![CapView::Cmd, CapView::Key("Z"@)]
            } else {
                seq![CapView::Ctrl, CapView::Key("Z"@)]
            }),
        all_groups(is_macos)[3].items[9].desc == "Redo"@,
        all_groups(is_macos)[3].items[9].keys == (if is_macos {
                seq![CapView::Cmd, CapView::Shift, CapView::Key("Z"@)]
            } else {
                seq![CapView::Ctrl, CapView::Shift, CapView::Key("Z"@)]
            }),
{
}

/// A key is shown by its name; Option and Alt, and the keys that are no modifiers, by
/// the label that they have.
pub proof fn law_labels_of_keys(label: Seq<char>)
    ensures
        cap_label(CapView::Cmd) == "Cmd"@,
        cap_label(CapView::Ctrl) == "Ctrl"@,
        cap_label(CapView::Shift) == "Shift"@,
        cap_label(CapView::Alt(label)) == label,
        cap_label(CapView::Key(label)) == label,
{
}

/// A shortcut is shown for a query that stands in its description or on one of its
/// keys, whatever the case, and for an empty one; and for no other.
pub proof fn law_what_a_query_shows(s: ShortcutView, query: Seq<char>, k: int)
    ensures
        matches_query(s, Seq::empty()),
        occurs(lowercase_chars(s.desc), query) ==> matches_query(s, query),
        0 <= k < s.keys.len() && occurs(lowercase_chars(cap_label(s.keys[k])), query)
            ==> matches_query(s, query),
        query.len() > 0 && !occurs(lowercase_chars(s.desc), query) && (forall|i: int|
            0 <= i < s.keys.len() ==> !occurs(
                lowercase_chars(cap_label(#[trigger] s.keys[i])),
                query,
            )) ==> !matches_query(s, query),
{
}

/// The list for a query is the list without what does not match, in order.
pub proof fn law_list_keeps_its_order(
    a: Seq<ShortcutView>,
    b: Seq<ShortcutView>,
    s: ShortcutView,
    query: Seq<char>,
)
    ensures
        matching(a + b, query) == matching(a, query) + matching(b, query),
        matches_query(s, query) ==> matching(seq![s], query) == seq![s],
        !matches_query(s, query) ==> matching(seq![s], query) == Seq::<ShortcutView>::empty(),
    decreases b.len(),
{
    assert(seq![s].drop_last() =~= Seq::<ShortcutView>::empty());
    assert(matching(seq![s].drop_last(), query) == Seq::<ShortcutView>::empty());
    assert(seq![s].last() == s);
    if matches_query(s, query) {
        assert(matching(seq![s], query) =~= seq![s]);
    }
    if b.len() == 0 {
        assert(a + b =~= a);
        assert(matching(a, query) + matching(b, query) =~= matching(a, query));
    } else {
        law_list_keeps_its_order(a, b.drop_last(), s, query);
        assert((a + b).drop_last() =~= a + b.drop_last());
        assert((a + b).last() == b.last());
        assert(matching(a + b, query) =~= matching(a, query) + matching(b, query));
    }
}

/// The groups for a query are those of which something matches, in order, each with
/// its title and what matches.
pub proof fn law_groups_keep_their_order(
    a: Seq<GroupView>,
    b: Seq<GroupView>,
    g: GroupView,
    query: Seq<char>,
)
    ensures
        matching_of(a + b, query) == matching_of(a, query) + matching_of(b, query),
        matching(g.items, query).len() == 0 ==> matching_of(seq![g], query) == Seq::<
            GroupView,
        >::empty(),
        matching(g.items, query).len() > 0 ==> {
            let shown = matching_of(seq![g], query);
            shown.len() == 1 && shown[0].title == g.title && shown[0].items == matching(
                g.items,
                query,
            )
        },
    decreases b.len(),
{
    assert(seq![g].drop_last() =~= Seq::<GroupView>::empty());
    assert(matching_of(seq![g].drop_last(), query) == Seq::<GroupView>::empty());
    assert(seq![g].last() == g);
    if b.len() == 0 {
        assert(a + b =~= a);
        assert(matching_of(a, query) + matching_of(b, query) =~= matching_of(a, query));
    } else {
        law_groups_keep_their_order(a, b.drop_last(), g, query);
        assert((a + b).drop_last() =~= a + b.drop_last());
        assert((a + b).last() == b.last());
        assert(matching_of(a + b, query) =~= matching_of(a, query) + matching_of(b, query));
    }
}

} // verus!
