use termica::history::db::Entry;
use termica::history_overlay::{
    dedupe_by_text, format_age, highlight_sections, row_meta, scope_label, HistoryOverlay,
    OverlayAction, OverlayKeys, OverlayScope, RowView,
};

fn make_entry(text: &str, ts: i64) -> Entry {
    Entry {
        id: ts,
        text: text.to_string(),
        started_at_ms: ts,
        finished_at_ms: None,
        exit_code: None,
        cwd: None,
        app_run_id: None,
        pane_id: None,
        source: "termica".to_string(),
    }
}

fn overlay_with(entries: Vec<Entry>) -> HistoryOverlay {
    let mut o = HistoryOverlay {
        query: String::new(),
        scope: OverlayScope::Global,
        selected: 0,
        cached_entries: entries,
        ranked: Vec::new(),
    };
    o.rerank(None);
    o
}

#[test]
fn empty_query_lists_all_entries_newest_first() {
    let entries =
        vec![make_entry("third", 300), make_entry("second", 200), make_entry("first", 100)];
    let o = overlay_with(entries);
    assert_eq!(o.ranked, vec![0, 1, 2]);
    assert_eq!(o.selected_text(), Some("third"));
}

#[test]
fn rerank_filters_via_substring() {
    let entries = vec![
        make_entry("cargo run", 300),
        make_entry("ls", 200),
        make_entry("cargo test", 100),
    ];
    let mut o = overlay_with(entries);
    o.query = "cargo".to_string();
    o.rerank(None);
    let texts: Vec<&str> =
        o.ranked.iter().map(|i| o.cached_entries[*i].text.as_str()).collect();
    assert_eq!(texts, vec!["cargo run", "cargo test"]);
}

#[test]
fn move_down_clamps_to_last_row() {
    let entries = vec![make_entry("a", 200), make_entry("b", 100)];
    let mut o = overlay_with(entries);
    o.move_down();
    assert_eq!(o.selected, 1);
    o.move_down();
    assert_eq!(o.selected, 1, "clamped to last index");
}

#[test]
fn move_up_clamps_to_zero() {
    let entries = vec![make_entry("a", 200), make_entry("b", 100)];
    let mut o = overlay_with(entries);
    o.move_down();
    o.move_up();
    assert_eq!(o.selected, 0);
    o.move_up();
    assert_eq!(o.selected, 0, "clamped at 0");
}

#[test]
fn move_down_on_empty_results_is_noop() {
    let mut o = overlay_with(vec![make_entry("ls", 100)]);
    o.query = "no-match".to_string();
    o.rerank(None);
    assert!(o.ranked.is_empty());
    o.move_down();
    assert_eq!(o.selected, 0);
}

#[test]
fn rerank_resets_selection_to_top() {
    let entries = vec![make_entry("a", 300), make_entry("b", 200), make_entry("c", 100)];
    let mut o = overlay_with(entries);
    o.move_down();
    o.move_down();
    assert_eq!(o.selected, 2);
    o.query = "a".to_string();
    o.rerank(None);
    assert_eq!(o.selected, 0);
}

#[test]
fn toggle_scope_flips_the_field() {
    let mut o = overlay_with(vec![]);
    assert_eq!(o.scope, OverlayScope::Global);
    o.toggle_scope();
    assert_eq!(o.scope, OverlayScope::Pane);
    o.toggle_scope();
    assert_eq!(o.scope, OverlayScope::Global);
}

fn ms(secs: i64) -> i64 {
    secs * 1000
}

#[test]
fn age_under_a_minute_renders_now() {
    assert_eq!(format_age(ms(100), ms(70)), ("now".into(), "just now".into()));
    assert_eq!(format_age(ms(100), ms(41)), ("now".into(), "just now".into()));
}

#[test]
fn age_minutes_singular_and_plural() {
    assert_eq!(format_age(ms(120), ms(60)), ("1m".into(), "1 minute ago".into()));
    assert_eq!(format_age(ms(60 * 4), ms(0)), ("4m".into(), "4 minutes ago".into()));
    assert_eq!(format_age(ms(60 * 59), ms(0)), ("59m".into(), "59 minutes ago".into()));
}

#[test]
fn age_hours_singular_and_plural() {
    assert_eq!(format_age(ms(60 * 60), ms(0)), ("1h".into(), "1 hour ago".into()));
    assert_eq!(format_age(ms(60 * 60 * 3), ms(0)), ("3h".into(), "3 hours ago".into()));
}

#[test]
fn age_one_day_renders_yesterday() {
    let one_day = 60 * 60 * 24;
    assert_eq!(format_age(ms(one_day), ms(0)), ("1d".into(), "yesterday".into()));
}

#[test]
fn age_two_to_six_days_render_as_days() {
    let day = 60 * 60 * 24;
    assert_eq!(format_age(ms(day * 3), ms(0)), ("3d".into(), "3 days ago".into()));
    assert_eq!(format_age(ms(day * 6), ms(0)), ("6d".into(), "6 days ago".into()));
}

#[test]
fn age_weeks_singular_and_plural() {
    let day = 60 * 60 * 24;
    assert_eq!(format_age(ms(day * 7), ms(0)), ("1w".into(), "1 week ago".into()));
    assert_eq!(format_age(ms(day * 14), ms(0)), ("2w".into(), "2 weeks ago".into()));
}

#[test]
fn age_months_and_years() {
    let day = 60 * 60 * 24;
    assert_eq!(format_age(ms(day * 30), ms(0)), ("1mo".into(), "1 month ago".into()));
    assert_eq!(format_age(ms(day * 90), ms(0)), ("3mo".into(), "3 months ago".into()));
    assert_eq!(format_age(ms(day * 365), ms(0)), ("1y".into(), "1 year ago".into()));
    assert_eq!(format_age(ms(day * 365 * 2), ms(0)), ("2y".into(), "2 years ago".into()));
}

#[test]
fn age_future_timestamps_clamp_to_now() {
    assert_eq!(format_age(ms(100), ms(500)), ("now".into(), "just now".into()));
}

#[test]
fn highlight_empty_query_is_one_base_section() {
    let sections = sections_of("echo hello", "");
    assert_eq!(sections, vec![("echo hello".into(), false)]);
}

#[test]
fn highlight_matches_case_insensitively() {
    let sections = sections_of("echo $PWD", "pwd");
    assert_eq!(sections, vec![("echo $".into(), false), ("PWD".into(), true)]);
}

#[test]
fn highlight_matches_multiple_occurrences() {
    let sections = sections_of("foo bar foo baz foo", "foo");
    assert_eq!(
        sections,
        vec![
            ("foo".into(), true),
            (" bar ".into(), false),
            ("foo".into(), true),
            (" baz ".into(), false),
            ("foo".into(), true),
        ]
    );
}

#[test]
fn highlight_no_match_is_one_base_section() {
    let sections = sections_of("ls -la", "xyz");
    assert_eq!(sections, vec![("ls -la".into(), false)]);
}

#[test]
fn dedupe_keeps_first_occurrence_of_each_text() {
    let entries = vec![
        make_entry("ls", 500),
        make_entry("cd", 400),
        make_entry("ls", 300),
        make_entry("ls", 200),
        make_entry("cd", 100),
    ];
    let deduped = dedupe_by_text(entries);
    let texts: Vec<&str> = deduped.iter().map(|e| e.text.as_str()).collect();
    let ts: Vec<i64> = deduped.iter().map(|e| e.started_at_ms).collect();
    assert_eq!(texts, vec!["ls", "cd"]);
    assert_eq!(ts, vec![500, 400], "kept the newest occurrence of each");
}

fn sections_of(text: &str, query: &str) -> Vec<(String, bool)> {
    highlight_sections(text, query)
        .iter()
        .map(|s| (text[s.start..s.end].to_string(), s.hit))
        .collect()
}

fn keys() -> OverlayKeys {
    OverlayKeys { enter: false, escape: false, tab: false, arrow_down: false, arrow_up: false }
}

#[test]
fn enter_submits_the_selected_text_and_cancels_where_there_is_none() {
    let mut o = overlay_with(vec![make_entry("a", 200), make_entry("b", 100)]);
    assert_eq!(o.handle_keys(OverlayKeys { arrow_down: true, ..keys() }), None);
    assert_eq!(o.selected, 1);
    let all = OverlayKeys { enter: true, escape: true, tab: true, ..keys() };
    assert_eq!(o.handle_keys(all), Some(OverlayAction::Submit("b".to_string())));
    let mut none = overlay_with(Vec::new());
    assert_eq!(
        none.handle_keys(OverlayKeys { enter: true, ..keys() }),
        Some(OverlayAction::Cancel)
    );
}

#[test]
fn escape_beats_tab_and_either_keeps_the_selection() {
    let mut o = overlay_with(vec![make_entry("a", 200), make_entry("b", 100)]);
    let both = OverlayKeys { escape: true, tab: true, arrow_down: true, ..keys() };
    assert_eq!(o.handle_keys(both), Some(OverlayAction::Cancel));
    assert_eq!(o.selected, 0);
    let tab = OverlayKeys { tab: true, arrow_down: true, ..keys() };
    assert_eq!(o.handle_keys(tab), Some(OverlayAction::ToggleScope));
    assert_eq!(o.selected, 0);
    o.handle_keys(OverlayKeys { arrow_down: true, arrow_up: true, ..keys() });
    assert_eq!(o.selected, 0);
}

#[test]
fn a_click_submits_its_row() {
    let o = overlay_with(vec![make_entry("a", 200), make_entry("b", 100)]);
    assert_eq!(o.click_row(1), Some(OverlayAction::Submit("b".to_string())));
    assert_eq!(o.click_row(2), None);
}

#[test]
fn a_new_query_makes_the_list_anew_and_the_same_one_does_not() {
    let mut o = overlay_with(vec![make_entry("cargo run", 200), make_entry("ls", 100)]);
    o.move_down();
    o.edit_query("", None);
    assert_eq!((o.selected, o.ranked.len()), (1, 2));
    o.edit_query("LS", None);
    assert_eq!((o.selected, o.ranked.clone()), (0, vec![1]));
    assert_eq!(o.query, "LS");
}

#[test]
fn fetched_rows_are_kept_once_each() {
    let mut o = HistoryOverlay::open(vec![make_entry("a", 3), make_entry("a", 2)]);
    assert_eq!(o.ranked, vec![0]);
    o.toggle_scope();
    o.refresh_entries(vec![make_entry("x", 9), make_entry("y", 8), make_entry("x", 7)]);
    o.rerank(None);
    let texts: Vec<&str> =
        o.rows().iter().map(|r| o.cached_entries[r.entry].text.as_str()).collect();
    assert_eq!(texts, vec!["x", "y"]);
    assert_eq!(o.rows()[0], RowView { row: 0, entry: 0, is_selected: true });
    assert_eq!(o.scope, OverlayScope::Pane);
}

#[test]
fn rows_whose_entry_is_gone_are_left_out() {
    let mut o = overlay_with(vec![make_entry("a", 2)]);
    o.ranked = vec![7, 0];
    assert_eq!(o.rows(), vec![RowView { row: 1, entry: 0, is_selected: false }]);
    assert_eq!(o.selected_text(), None);
    assert_eq!(o.click_row(0), None);
}

#[test]
fn a_row_says_where_and_how_its_command_ran() {
    let mut e = make_entry("ls", 1);
    assert!(row_meta(&e).is_empty());
    e.cwd = Some("/tmp".to_string());
    e.exit_code = Some(-1);
    e.source = "zsh".to_string();
    assert_eq!(row_meta(&e), vec!["/tmp", "exit -1", "zsh"]);
    assert_eq!(scope_label(OverlayScope::Global), "global*");
    assert_eq!(scope_label(OverlayScope::Pane), "this pane*");
}
