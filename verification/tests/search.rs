use termica::history::db::Entry;
use termica::history::search::rank;

fn entry(id: i64, text: &str, ts: i64, cwd: Option<&str>) -> Entry {
    Entry {
        id,
        text: text.to_string(),
        started_at_ms: ts,
        finished_at_ms: None,
        exit_code: None,
        cwd: cwd.map(|s| s.to_string()),
        app_run_id: None,
        pane_id: None,
        source: "termica".to_string(),
    }
}

#[test]
fn empty_query_passes_everything_through_in_input_order() {
    let entries = vec![entry(1, "ls", 300, None), entry(2, "cd", 200, None)];
    let got = rank(&entries, "", None, 10);
    assert_eq!(got, vec![0, 1]);
}

#[test]
fn substring_match_is_case_insensitive() {
    let entries =
        vec![entry(1, "cargo TEST --workspace", 100, None), entry(2, "ls", 200, None)];
    let got = rank(&entries, "test", None, 10);
    assert_eq!(got, vec![0]);
}

#[test]
fn non_matches_drop_out() {
    let entries = vec![entry(1, "ls", 100, None), entry(2, "cd ..", 200, None)];
    let got = rank(&entries, "cargo", None, 10);
    assert!(got.is_empty());
}

#[test]
fn cwd_match_outranks_more_recent_non_cwd_match() {
    let entries = vec![
        entry(1, "cargo build", 100, Some("/proj")),
        entry(2, "cargo build", 200, Some("/elsewhere")),
    ];
    let got = rank(&entries, "cargo", Some("/proj"), 10);
    assert_eq!(got, vec![0, 1]);
}

#[test]
fn within_same_cwd_class_recency_breaks_ties() {
    let entries = vec![
        entry(1, "cargo a", 100, Some("/p")),
        entry(2, "cargo b", 200, Some("/p")),
        entry(3, "cargo c", 50, Some("/p")),
    ];
    let got = rank(&entries, "cargo", Some("/p"), 10);
    let texts: Vec<&str> = got.iter().map(|i| entries[*i].text.as_str()).collect();
    assert_eq!(texts, vec!["cargo b", "cargo a", "cargo c"]);
}

#[test]
fn limit_is_honored() {
    let entries: Vec<_> =
        (0..20).map(|i| entry(i, &format!("cmd {i}"), 100 + i, None)).collect();
    let got = rank(&entries, "cmd", None, 5);
    assert_eq!(got.len(), 5);
}

#[test]
fn no_current_cwd_means_no_cwd_boost() {
    let entries = vec![entry(1, "x", 100, Some("/a")), entry(2, "x", 200, Some("/a"))];
    let got = rank(&entries, "x", None, 10);
    assert_eq!(got, vec![1, 0]);
}

#[test]
fn query_does_not_match_against_cwd() {
    let entries = vec![entry(1, "ls", 100, Some("/myproj"))];
    let got = rank(&entries, "myproj", None, 10);
    assert!(got.is_empty());
}

#[test]
fn word_split_query_requires_every_word_to_match() {
    let entries = vec![
        entry(1, "echo this that the other", 300, None),
        entry(2, "echo this", 200, None),
        entry(3, "that thing", 100, None),
    ];
    let got = rank(&entries, "echo that", None, 10);
    assert_eq!(got, vec![0]);
}

#[test]
fn whole_word_match_outranks_partial() {
    let entries = vec![entry(1, "echoes the noise", 200, None), entry(2, "echo hi", 100, None)];
    let got = rank(&entries, "echo", None, 10);
    let texts: Vec<&str> = got.iter().map(|i| entries[*i].text.as_str()).collect();
    assert_eq!(texts, vec!["echo hi", "echoes the noise"]);
}

#[test]
fn in_order_words_outrank_out_of_order() {
    let entries = vec![
        entry(1, "that thing echo more", 200, None),
        entry(2, "echo thing that more", 100, None),
    ];
    let got = rank(&entries, "echo that", None, 10);
    let texts: Vec<&str> = got.iter().map(|i| entries[*i].text.as_str()).collect();
    assert_eq!(texts, vec!["echo thing that more", "that thing echo more"]);
}

#[test]
fn whole_word_hits_beat_partial_hits() {
    let entries =
        vec![entry(1, "echo that more", 100, None), entry(2, "echo gotthat now", 200, None)];
    let got = rank(&entries, "echo that", None, 10);
    let texts: Vec<&str> = got.iter().map(|i| entries[*i].text.as_str()).collect();
    assert_eq!(texts, vec!["echo that more", "echo gotthat now"]);
}

#[test]
fn extra_query_whitespace_is_ignored() {
    let entries = vec![entry(1, "cargo run", 200, None), entry(2, "cargo test", 100, None)];
    let got = rank(&entries, "  cargo   ", None, 10);
    assert_eq!(got.len(), 2);
}

#[test]
fn an_occurrence_inside_a_word_hides_no_whole_word() {
    let hits = |text: &str, word: &str| {
        let text: Vec<char> = text.chars().collect();
        let word: Vec<char> = word.chars().collect();
        termica::history::search::count_whole_word_hits(&text, &word)
    };
    assert_eq!(hits("xa-a-a", "a-a"), 1);
    assert_eq!(hits("git status git", "git"), 2);
    assert_eq!(hits("gitgit", "git"), 0);
    assert_eq!(hits("anything", ""), 0);
}

#[test]
fn a_smaller_limit_gives_a_prefix() {
    let entries = vec![
        entry(1, "echo a", 100, None),
        entry(2, "ls", 400, None),
        entry(3, "echo b", 300, None),
        entry(4, "echoes", 500, None),
    ];
    let all = rank(&entries, "echo", None, 10);
    assert_eq!(all, vec![2, 0, 3]);
    for limit in 0..5 {
        let few = rank(&entries, "echo", None, limit);
        assert_eq!(few, all[..limit.min(all.len())].to_vec());
    }
}
