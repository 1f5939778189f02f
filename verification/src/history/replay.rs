//! Replaying the shells' history files into the command log.

use vstd::prelude::*;

use crate::history::shell_files::{entries_view, EntryView, ParsedEntry};
use crate::json::strings_view;
use crate::osc::text_view;
use crate::paths::{join_path, joined_path};

verus! {

/// Where each shell keeps its history.
#[derive(Debug, Clone, PartialEq, Eq)]
pub struct ReplayPaths {
    pub zsh: Option<String>,
    pub bash: Option<String>,
    pub fish: Option<String>,
}

impl ReplayPaths {
    /// The usual places under `home`. `histfile` (the variable `HISTFILE`)
    /// overrides those of zsh and bash, `xdg_data` (`XDG_DATA_HOME`) the
    /// directory of fish.
    pub fn from_home(home: &str, xdg_data: Option<&str>, histfile: Option<&str>) -> (r: ReplayPaths)
        ensures
            r.zsh matches Some(p) && p@ == (match histfile {
                Some(h) => h@,
                None => joined_path(home@, ".zsh_history"@),
            }),
            r.bash matches Some(p) && p@ == (match histfile {
                Some(h) => h@,
                None => joined_path(home@, ".bash_history"@),
            }),
            r.fish matches Some(p) && p@ == joined_path(
                match xdg_data {
                    Some(d) => d@,
                    None => joined_path(home@, ".local/share"@),
                },
                "fish/fish_history"@,
            ),
    {
        let data = match xdg_data {
            Some(d) => d.to_owned(),
            None => join_path(home, ".local/share"),
        };
        let zsh = match histfile {
            Some(h) => h.to_owned(),
            None => join_path(home, ".zsh_history"),
        };
        let bash = match histfile {
            Some(h) => h.to_owned(),
            None => join_path(home, ".bash_history"),
        };
        ReplayPaths {
            zsh: Some(zsh),
            bash: Some(bash),
            fish: Some(join_path(data.as_str(), "fish/fish_history")),
        }
    }
}

/// What one pass of replaying did.
#[derive(Debug, Clone, PartialEq, Eq)]
pub struct ReplayStats {
    pub zsh_inserted: usize,
    pub bash_inserted: usize,
    pub fish_inserted: usize,
    /// The files that could not be read.
    pub files_skipped: Vec<String>,
}

impl Default for ReplayStats {
    fn default() -> (r: ReplayStats)
        ensures
            r.zsh_inserted == 0,
            r.bash_inserted == 0,
            r.fish_inserted == 0,
            r.files_skipped@ == Seq::<String>::empty(),
    {
        ReplayStats {
            zsh_inserted: 0,
            bash_inserted: 0,
            fish_inserted: 0,
            files_skipped: Vec::new(),
        }
    }
}

impl ReplayStats {
    /// The rows added in all.
    pub fn total_inserted(&self) -> (r: usize)
        requires
            self.zsh_inserted + self.bash_inserted + self.fish_inserted <= usize::MAX,
        ensures
            r == self.zsh_inserted + self.bash_inserted + self.fish_inserted,
    {
        self.zsh_inserted + self.bash_inserted + self.fish_inserted
    }
}

/// A row to be added for an entry of a history file.
#[derive(Debug, Clone, PartialEq, Eq)]
pub struct ReplayRow {
    pub text: String,
    pub started_at_ms: i64,
}

/// The time under which entry `i` is filed: its own, or, where the file gives
/// none, a negative number made of its position, which sorts below every real
/// time.
pub open spec fn filed_at(entries: Seq<EntryView>, i: int) -> int {
    match entries[i].started_at_ms {
        Some(t) => t as int,
        None => -(i + 1),
    }
}

/// What tells the rows of history files apart: the shell, the text and the time. The
/// store holds no two that agree in all three, and passes over one that it has.
pub struct RowKey {
    pub source: Seq<char>,
    pub text: Seq<char>,
    pub at: int,
}

/// The rows of a shell's history file.
pub open spec fn file_rows(source: Seq<char>, entries: Seq<EntryView>) -> Seq<RowKey> {
    Seq::new(
        entries.len(),
        |i: int| RowKey { source, text: entries[i].text, at: filed_at(entries, i) },
    )
}

/// The rows as the store tells them apart.
pub open spec fn row_keys(source: Seq<char>, rows: Seq<ReplayRow>) -> Seq<RowKey> {
    rows.map_values(|r: ReplayRow| RowKey { source, text: r.text@, at: r.started_at_ms as int })
}

/// The rows to be added for the entries of a history file, in order.
pub fn replay_rows(entries: &Vec<ParsedEntry>) -> (rows: Vec<ReplayRow>)
    requires
        entries@.len() <= i64::MAX,
    ensures
        rows@.len() == entries@.len(),
        forall|i: int|
            0 <= i < rows@.len() ==> (#[trigger] rows@[i]).text@ == entries@[i].text@
                && rows@[i].started_at_ms == filed_at(entries_view(entries@), i),
        forall|source: Seq<char>|
            #[trigger] row_keys(source, rows@) == file_rows(source, entries_view(entries@)),
{
    let mut rows: Vec<ReplayRow> = Vec::new();
    let mut i: usize = 0;
    while i < entries.len()
        invariant
            i <= entries@.len() <= i64::MAX,
            rows@.len() == i,
            forall|k: int|
                0 <= k < i ==> (#[trigger] rows@[k]).text@ == entries@[k].text@
                    && rows@[k].started_at_ms == filed_at(entries_view(entries@), k),
        decreases entries@.len() - i,
    {
        assert(entries_view(entries@)[i as int] == entries@[i as int]@);
        let at: i64 = match entries[i].started_at_ms {
            Some(t) => t,
            None => -(i as i64) - 1,
        };
        rows.push(ReplayRow { text: entries[i].text.clone(), started_at_ms: at });
        i += 1;
    }
    assert forall|source: Seq<char>|
        #[trigger] row_keys(source, rows@) == file_rows(source, entries_view(entries@)) by {
        assert(row_keys(source, rows@) =~= file_rows(source, entries_view(entries@)));
    }
    rows
}

/// How many of the outcomes are new rows.
pub open spec fn inserted(outcomes: Seq<bool>) -> nat
    decreases outcomes.len(),
{
    if outcomes.len() == 0 {
        0
    } else {
        inserted(outcomes.drop_last()) + (if outcomes.last() {
            1nat
        } else {
            0nat
        })
    }
}

/// Counts the rows that were new; `outcomes[i]` says whether row `i` was. A
/// row already there, and one that could not be written, are not.
pub fn count_inserted(outcomes: &Vec<bool>) -> (r: usize)
    ensures
        r == inserted(outcomes@),
        r <= outcomes@.len(),
{
    let mut n: usize = 0;
    let mut i: usize = 0;
    while i < outcomes.len()
        invariant
            i <= outcomes@.len(),
            n <= i,
            n == inserted(outcomes@.take(i as int)),
        decreases outcomes@.len() - i,
    {
        assert(outcomes@.take(i + 1).drop_last() =~= outcomes@.take(i as int));
        if outcomes[i] {
            n += 1;
        }
        i += 1;
    }
    assert(outcomes@.take(i as int) =~= outcomes@);
    n
}

/// What a file adds: its new rows, where there is a file and it could be read.
pub open spec fn added(path: Option<String>, outcomes: Option<Vec<bool>>) -> nat {
    match (path, outcomes) {
        (Some(_), Some(o)) => inserted(o@),
        _ => 0,
    }
}

/// The file, where there is one and it could not be read.
pub open spec fn skipped(path: Option<Seq<char>>, read: bool) -> Seq<Seq<char>> {
    match path {
        Some(p) if !read => seq![p],
        _ => Seq::empty(),
    }
}

/// The files that could not be read, in order.
pub open spec fn all_skipped(paths: ReplayPaths, zsh: bool, bash: bool, fish: bool) -> Seq<
    Seq<char>,
> {
    skipped(text_view(paths.zsh), zsh) + skipped(text_view(paths.bash), bash) + skipped(
        text_view(paths.fish),
        fish,
    )
}

/// Takes in what came of one file: the number of rows that it adds. One that could
/// not be read is noted.
fn take_file(
    path: &Option<String>,
    outcomes: &Option<Vec<bool>>,
    files_skipped: &mut Vec<String>,
) -> (r: usize)
    ensures
        r == added(*path, *outcomes),
        strings_view(final(files_skipped)@) == strings_view(old(files_skipped)@) + skipped(
            text_view(*path),
            *outcomes is Some,
        ),
{
    let ghost before = strings_view(files_skipped@);
    match (path, outcomes) {
        (Some(_), Some(o)) => {
            assert(before + Seq::<Seq<char>>::empty() =~= before);
            count_inserted(o)
        },
        (Some(p), None) => {
            files_skipped.push(p.clone());
            assert(strings_view(files_skipped@) =~= before + seq![p@]);
            0
        },
        (None, _) => {
            assert(before + Seq::<Seq<char>>::empty() =~= before);
            0
        },
    }
}

impl ReplayStats {
    /// What one pass did: for each shell's file, whether each row was new, or none
    /// where the file could not be read.
    pub fn of(
        paths: &ReplayPaths,
        zsh: &Option<Vec<bool>>,
        bash: &Option<Vec<bool>>,
        fish: &Option<Vec<bool>>,
    ) -> (r: ReplayStats)
        ensures
            r.zsh_inserted == added(paths.zsh, *zsh),
            r.bash_inserted == added(paths.bash, *bash),
            r.fish_inserted == added(paths.fish, *fish),
            strings_view(r.files_skipped@) == all_skipped(
                *paths,
                *zsh is Some,
                *bash is Some,
                *fish is Some,
            ),
    {
        let mut files_skipped: Vec<String> = Vec::new();
        assert(strings_view(files_skipped@) =~= Seq::empty());
        let zsh_inserted: usize = take_file(&paths.zsh, zsh, &mut files_skipped);
        let bash_inserted: usize = take_file(&paths.bash, bash, &mut files_skipped);
        let fish_inserted: usize = take_file(&paths.fish, fish, &mut files_skipped);
        assert(strings_view(files_skipped@) =~= all_skipped(
            *paths,
            *zsh is Some,
            *bash is Some,
            *fish is Some,
        ));
        ReplayStats { zsh_inserted, bash_inserted, fish_inserted, files_skipped }
    }
}

// ---- laws --------------------------------------------------------------

/// The store after rows were handed to it.
pub open spec fn filed(store: Set<RowKey>, rows: Seq<RowKey>) -> Set<RowKey>
    decreases rows.len(),
{
    if rows.len() == 0 {
        store
    } else {
        filed(store, rows.drop_last()).insert(rows.last())
    }
}

/// Which rows are new to the store when they are handed to it.
pub open spec fn new_rows(store: Set<RowKey>, rows: Seq<RowKey>) -> Seq<bool>
    decreases rows.len(),
{
    if rows.len() == 0 {
        Seq::empty()
    } else {
        new_rows(store, rows.drop_last()).push(
            !filed(store, rows.drop_last()).contains(rows.last()),
        )
    }
}

/// The store holds what it held and what was handed to it, and nothing else.
proof fn lemma_filed(store: Set<RowKey>, rows: Seq<RowKey>, row: RowKey)
    ensures
        filed(store, rows).contains(row) <==> store.contains(row) || rows.contains(row),
    decreases rows.len(),
{
    if rows.len() > 0 {
        let some = rows.drop_last();
        lemma_filed(store, some, row);
        if some.contains(row) {
            let i = choose|i: int| 0 <= i < some.len() && some[i] == row;
            assert(rows[i] == row);
        }
        if rows.contains(row) {
            let i = choose|i: int| 0 <= i < rows.len() && rows[i] == row;
            if i < some.len() {
                assert(some[i] == row);
            }
        }
        if row == rows.last() {
            assert(rows[rows.len() - 1] == row);
        }
    }
}

/// Rows that the store has already change nothing, and none of them is new.
pub proof fn law_known_rows_change_nothing(store: Set<RowKey>, rows: Seq<RowKey>)
    requires
        forall|i: int| 0 <= i < rows.len() ==> store.contains(#[trigger] rows[i]),
    ensures
        filed(store, rows) == store,
        inserted(new_rows(store, rows)) == 0,
    decreases rows.len(),
{
    if rows.len() > 0 {
        let some = rows.drop_last();
        assert forall|i: int| 0 <= i < some.len() implies store.contains(#[trigger] some[i]) by {
            assert(store.contains(rows[i]));
        }
        law_known_rows_change_nothing(store, some);
        assert(store.contains(rows[rows.len() - 1]));
        assert(filed(store, rows) =~= store);
        assert(new_rows(store, rows).drop_last() =~= new_rows(store, some));
    }
}

/// Replaying the same files once more adds no row and leaves the store as it is, with
/// times or without: the second pass counts nothing for any shell.
pub proof fn law_second_replay_adds_nothing(
    store: Set<RowKey>,
    zsh: Seq<EntryView>,
    bash: Seq<EntryView>,
    fish: Seq<EntryView>,
)
    ensures
        ({
            let z = file_rows("zsh"@, zsh);
            let b = file_rows("bash"@, bash);
            let f = file_rows("fish"@, fish);
            let after = filed(filed(filed(store, z), b), f);
            &&& filed(filed(filed(after, z), b), f) == after
            &&& inserted(new_rows(after, z)) == 0
            &&& inserted(new_rows(filed(after, z), b)) == 0
            &&& inserted(new_rows(filed(filed(after, z), b), f)) == 0
        }),
{
    let z = file_rows("zsh"@, zsh);
    let b = file_rows("bash"@, bash);
    let f = file_rows("fish"@, fish);
    let one = filed(store, z);
    let two = filed(one, b);
    let after = filed(two, f);
    assert forall|i: int| 0 <= i < z.len() implies after.contains(#[trigger] z[i]) by {
        assert(z.contains(z[i]));
        lemma_filed(store, z, z[i]);
        lemma_filed(one, b, z[i]);
        lemma_filed(two, f, z[i]);
    }
    assert forall|i: int| 0 <= i < b.len() implies after.contains(#[trigger] b[i]) by {
        assert(b.contains(b[i]));
        lemma_filed(one, b, b[i]);
        lemma_filed(two, f, b[i]);
    }
    assert forall|i: int| 0 <= i < f.len() implies after.contains(#[trigger] f[i]) by {
        assert(f.contains(f[i]));
        lemma_filed(two, f, f[i]);
    }
    law_known_rows_change_nothing(after, z);
    law_known_rows_change_nothing(after, b);
    law_known_rows_change_nothing(after, f);
}

/// The same command at the same time from two shells is two rows: the second is new
/// where the store did not have it before, whatever the first shell had.
pub proof fn law_shells_keep_their_own_rows(
    store: Set<RowKey>,
    first: Seq<EntryView>,
    source: Seq<char>,
    row: RowKey,
)
    requires
        row.source != source,
        !store.contains(row),
    ensures
        !filed(store, file_rows(source, first)).contains(row),
{
    lemma_filed(store, file_rows(source, first), row);
}

/// Entries appended to a file leave the filing of the earlier ones as it was:
/// replaying a file that only grew adds nothing twice.
pub proof fn law_filing_is_stable(entries: Seq<EntryView>, more: Seq<EntryView>, i: int)
    requires
        0 <= i < entries.len(),
    ensures
        filed_at(entries + more, i) == filed_at(entries, i),
{
}

/// A made-up time is negative, and no two entries of a file share one.
pub proof fn law_made_up_times_are_distinct(entries: Seq<EntryView>, i: int, j: int)
    requires
        0 <= i < j < entries.len(),
        entries[i].started_at_ms is None,
        entries[j].started_at_ms is None,
    ensures
        filed_at(entries, j) < filed_at(entries, i) < 0,
{
}

/// Each entry of a file becomes a row under its shell, with its text, at its own time or,
/// without one, at a negative time that counts down from the top of the file.
pub proof fn law_rows_of_a_file(source: Seq<char>, entries: Seq<EntryView>, i: int)
    requires
        0 <= i < entries.len(),
    ensures
        file_rows(source, entries).len() == entries.len(),
        file_rows(source, entries)[i].source == source,
        file_rows(source, entries)[i].text == entries[i].text,
        match entries[i].started_at_ms {
            Some(t) => file_rows(source, entries)[i].at == t,
            None => file_rows(source, entries)[i].at == -1 - i,
        },
{
}

/// New rows are counted one by one.
pub proof fn law_new_rows_are_counted(a: Seq<bool>, b: Seq<bool>, new: bool)
    ensures
        inserted(a + b) == inserted(a) + inserted(b),
        inserted(seq![new]) == (if new {
            1nat
        } else {
            0nat
        }),
    decreases b.len(),
{
    assert(seq![new].drop_last() =~= Seq::<bool>::empty());
    assert(inserted(seq![new].drop_last()) == 0);
    assert(seq![new].last() == new);
    if b.len() == 0 {
        assert(a + b =~= a);
    } else {
        law_new_rows_are_counted(a, b.drop_last(), new);
        assert((a + b).drop_last() =~= a + b.drop_last());
        assert((a + b).last() == b.last());
    }
}

/// A file adds its new rows where it could be read, and is noted as skipped where it
/// could not; a shell without a file does neither. The files are noted in the order zsh,
/// bash, fish.
pub proof fn law_files_are_added_or_skipped(
    path: String,
    outcomes: Vec<bool>,
    any: Option<Vec<bool>>,
    paths: ReplayPaths,
    zsh: bool,
    bash: bool,
    fish: bool,
)
    ensures
        added(Some(path), Some(outcomes)) == inserted(outcomes@),
        added(Some(path), None) == 0,
        added(None, any) == 0,
        skipped(Some(path@), false) == seq![path@],
        skipped(Some(path@), true).len() == 0,
        skipped(None, zsh).len() == 0,
        paths.zsh is Some && paths.bash is Some && paths.fish is Some ==> {
            let all = all_skipped(paths, zsh, bash, fish);
            &&& !zsh ==> all.len() > 0 && all[0] == paths.zsh.unwrap()@
            &&& !fish ==> all.len() > 0 && all.last() == paths.fish.unwrap()@
            &&& zsh && !bash ==> all.len() > 0 && all[0] == paths.bash.unwrap()@
            &&& !zsh && !bash ==> all.len() > 1 && all[1] == paths.bash.unwrap()@
            &&& all.len() == (if zsh {
                0int
            } else {
                1
            }) + (if bash {
                0int
            } else {
                1
            }) + (if fish {
                0int
            } else {
                1
            })
        },
{
}

/// Where the shells keep their histories: below the home directory, unless the
/// environment says otherwise.
pub proof fn law_places_of_histories(
    home: &str,
    data: &str,
    file: &str,
    usual: ReplayPaths,
    told: ReplayPaths,
)
    requires
        home@.len() > 0,
        home@.last() != '/',
        data@.len() > 0,
        data@.last() != '/',
        call_ensures(ReplayPaths::from_home, (home, None, None), usual),
        call_ensures(ReplayPaths::from_home, (home, Some(data), Some(file)), told),
    ensures
        usual.zsh matches Some(p) && p@ == home@ + seq!['/'] + ".zsh_history"@,
        usual.bash matches Some(p) && p@ == home@ + seq!['/'] + ".bash_history"@,
        usual.fish matches Some(p) && p@ == home@ + seq!['/'] + ".local/share"@ + seq!['/']
            + "fish/fish_history"@,
        told.zsh matches Some(p) && p@ == file@,
        told.bash matches Some(p) && p@ == file@,
        told.fish matches Some(p) && p@ == data@ + seq!['/'] + "fish/fish_history"@,
{
    reveal_strlit(".zsh_history");
    reveal_strlit(".bash_history");
    reveal_strlit(".local/share");
    reveal_strlit("fish/fish_history");
    crate::paths::law_joined_paths(home@, ".zsh_history"@);
    crate::paths::law_joined_paths(home@, ".bash_history"@);
    crate::paths::law_joined_paths(home@, ".local/share"@);
    let share = home@ + seq!['/'] + ".local/share"@;
    assert(share.last() == 'e');
    crate::paths::law_joined_paths(share, "fish/fish_history"@);
    crate::paths::law_joined_paths(data@, "fish/fish_history"@);
}

} // verus!
