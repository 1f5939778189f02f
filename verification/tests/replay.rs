use std::collections::HashSet;
use termica::history::db::{pending_migrations, SCHEMA_VERSION};
use termica::history::replay::{count_inserted, replay_rows, ReplayPaths, ReplayStats};
use termica::history::shell_files::{
    parse_bash_history, parse_fish_history, parse_zsh_history, ParsedEntry,
};

#[derive(Default)]
struct Store {
    rows: HashSet<(String, String, i64)>,
}

type ParseFn = fn(&[u8]) -> Vec<ParsedEntry>;

/// A history file: its path, and what it holds where it can be read.
type HistoryFile<'a> = Option<(&'a str, Option<&'a [u8]>)>;

fn replay_one(
    store: &mut Store,
    file: HistoryFile<'_>,
    source: &str,
    parser: ParseFn,
) -> Option<Vec<bool>> {
    let (_, contents) = file?;
    let outcomes = replay_rows(&parser(contents?))
        .into_iter()
        .map(|r| store.rows.insert((source.to_string(), r.text, r.started_at_ms)))
        .collect();
    Some(outcomes)
}

fn replay_into(
    store: &mut Store,
    zsh: HistoryFile<'_>,
    bash: HistoryFile<'_>,
    fish: HistoryFile<'_>,
) -> ReplayStats {
    let path = |file: HistoryFile<'_>| file.map(|(path, _)| path.to_string());
    let paths = ReplayPaths { zsh: path(zsh), bash: path(bash), fish: path(fish) };
    let zsh = replay_one(store, zsh, "zsh", parse_zsh_history);
    let bash = replay_one(store, bash, "bash", parse_bash_history);
    let fish = replay_one(store, fish, "fish", parse_fish_history);
    ReplayStats::of(&paths, &zsh, &bash, &fish)
}

fn file<'a>(path: &'a str, contents: &'a [u8]) -> HistoryFile<'a> {
    Some((path, Some(contents)))
}

#[test]
fn replay_inserts_zsh_entries_into_runs() {
    let mut s = Store::default();
    let zsh = file(".zsh_history", b": 1700000000:0;ls\n: 1700000005:0;cd ..\n");
    let stats = replay_into(&mut s, zsh, None, None);
    assert_eq!(stats.zsh_inserted, 2);
    assert_eq!(s.rows.len(), 2);
    assert!(s.rows.iter().all(|r| r.0 == "zsh"));
}

#[test]
fn replay_is_idempotent_on_re_run() {
    let mut s = Store::default();
    let zsh = file(".zsh_history", b": 1700000000:0;ls\n: 1700000005:0;cd ..\n");
    let first = replay_into(&mut s, zsh, None, None);
    assert_eq!(first.zsh_inserted, 2);
    let second = replay_into(&mut s, zsh, None, None);
    assert_eq!(second.zsh_inserted, 0, "re-running inserts nothing new");
    assert_eq!(second.total_inserted(), 0);
    assert_eq!(s.rows.len(), 2, "no duplicate rows");
}

#[test]
fn replay_picks_up_newly_appended_entries() {
    let mut s = Store::default();
    let mut contents = b": 1700000000:0;ls\n".to_vec();
    let first = replay_into(&mut s, file(".zsh_history", &contents), None, None);
    assert_eq!(first.zsh_inserted, 1);
    contents.extend_from_slice(b": 1700000010:0;echo new\n");
    let second = replay_into(&mut s, file(".zsh_history", &contents), None, None);
    assert_eq!(second.zsh_inserted, 1, "only the new entry is inserted");
    assert_eq!(s.rows.len(), 2);
}

#[test]
fn replay_handles_bash_without_timestamps_via_position() {
    let mut s = Store::default();
    let bash = file(".bash_history", b"ls\ncd ..\necho hi\n");
    assert_eq!(replay_into(&mut s, None, bash, None).bash_inserted, 3);
    assert_eq!(replay_into(&mut s, None, bash, None).bash_inserted, 0);
    assert_eq!(s.rows.len(), 3);
    assert!(s.rows.contains(&("bash".to_string(), "cd ..".to_string(), -2)));
}

#[test]
fn replay_separates_sources_for_same_text() {
    let mut s = Store::default();
    let zsh = file(".zsh_history", b": 1700000000:0;ls\n");
    let bash = file(".bash_history", b"#1700000000\nls\n");
    let stats = replay_into(&mut s, zsh, bash, None);
    assert_eq!(stats.zsh_inserted, 1);
    assert_eq!(stats.bash_inserted, 1);
    assert_eq!(s.rows.len(), 2);
}

#[test]
fn replay_skips_missing_files_without_erroring() {
    let mut s = Store::default();
    let stats = replay_into(&mut s, Some(("does-not-exist", None)), None, None);
    assert_eq!(stats.zsh_inserted, 0);
    assert_eq!(stats.files_skipped, vec!["does-not-exist".to_string()]);
}

#[test]
fn replay_all_three_shells_in_one_pass() {
    let mut s = Store::default();
    let stats = replay_into(
        &mut s,
        file(".zsh_history", b": 1700000000:0;zsh-cmd\n"),
        file(".bash_history", b"#1700000000\nbash-cmd\n"),
        file("fish/fish_history", b"- cmd: fish-cmd\n  when: 1700000000\n"),
    );
    assert_eq!(stats.zsh_inserted, 1);
    assert_eq!(stats.bash_inserted, 1);
    assert_eq!(stats.fish_inserted, 1);
    assert_eq!(stats.total_inserted(), 3);
}

#[test]
fn a_second_pass_skips_the_same_files_and_adds_nothing() {
    let mut s = Store::default();
    let zsh = file("z", b": 1700000000:0;ls\n");
    let bash = Some(("b", None));
    let fish = Some(("f", None));
    let first = replay_into(&mut s, zsh, bash, fish);
    assert_eq!(first.total_inserted(), 1);
    let second = replay_into(&mut s, zsh, bash, fish);
    assert_eq!(second.total_inserted(), 0);
    assert_eq!(second.files_skipped, first.files_skipped);
    assert_eq!(second.files_skipped, vec!["b".to_string(), "f".to_string()]);
    assert_eq!(count_inserted(&vec![true, false, true]), 2);
}

#[test]
fn schema_version_is_three() {
    assert_eq!(SCHEMA_VERSION, 3);
}

#[test]
fn a_fresh_database_takes_every_step_and_a_current_one_none() {
    assert_eq!(pending_migrations(0), vec![1, 2, 3]);
    assert_eq!(pending_migrations(2), vec![3]);
    assert!(pending_migrations(3).is_empty());
    assert!(pending_migrations(9).is_empty());
}

#[test]
fn the_shells_keep_their_histories_in_the_usual_places() {
    let p = ReplayPaths::from_home("/home/u", None, None);
    assert_eq!(p.zsh.as_deref(), Some("/home/u/.zsh_history"));
    assert_eq!(p.bash.as_deref(), Some("/home/u/.bash_history"));
    assert_eq!(p.fish.as_deref(), Some("/home/u/.local/share/fish/fish_history"));
    let p = ReplayPaths::from_home("/home/u", Some("/data"), Some("/h"));
    assert_eq!(p.zsh.as_deref(), Some("/h"));
    assert_eq!(p.bash.as_deref(), Some("/h"));
    assert_eq!(p.fish.as_deref(), Some("/data/fish/fish_history"));
}
