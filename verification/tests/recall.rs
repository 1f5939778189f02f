use termica::history::recall::{RecallOutcome, RecallState};

fn entries(items: &[&str]) -> Vec<String> {
    items.iter().map(|s| s.to_string()).collect()
}

fn replace_text(new_text: &str) -> RecallOutcome {
    RecallOutcome::Replace { new_text: new_text.to_string(), new_cursor: None }
}

fn replace_with_cursor(new_text: &str, new_cursor: usize) -> RecallOutcome {
    RecallOutcome::Replace { new_text: new_text.to_string(), new_cursor: Some(new_cursor) }
}

#[test]
fn first_up_saves_buffer_and_shows_most_recent() {
    let mut s = RecallState::default();
    let out = s.step_back(|| entries(&["ls", "cd", "echo"]), "my-draft", 3);
    assert_eq!(out, replace_text("ls"));
    assert!(s.is_walking());
    assert_eq!(s.saved().map(|b| b.text.as_str()), Some("my-draft"));
    assert_eq!(s.saved().map(|b| b.cursor), Some(3));
}

#[test]
fn second_up_walks_to_older_entry() {
    let mut s = RecallState::default();
    let _ = s.step_back(|| entries(&["ls", "cd"]), "", 0);
    let out = s.step_back(|| panic!("query_fn must not be called on subsequent steps"), "", 0);
    assert_eq!(out, replace_text("cd"));
}

#[test]
fn up_at_oldest_returns_unchanged() {
    let mut s = RecallState::default();
    s.step_back(|| entries(&["only"]), "", 0);
    let out = s.step_back(|| panic!("query_fn not called"), "", 0);
    assert_eq!(out, RecallOutcome::Unchanged);
    assert!(s.is_walking());
}

#[test]
fn down_at_most_recent_restores_saved_buffer_text_and_cursor() {
    let mut s = RecallState::default();
    s.step_back(|| entries(&["ls"]), "my-draft", 4);
    let out = s.step_forward();
    assert_eq!(out, replace_with_cursor("my-draft", 4));
    assert!(!s.is_walking());
}

#[test]
fn down_when_not_walking_is_unchanged() {
    let mut s = RecallState::default();
    let out = s.step_forward();
    assert_eq!(out, RecallOutcome::Unchanged);
    assert!(!s.is_walking());
}

#[test]
fn down_walks_back_toward_newer_entries() {
    let mut s = RecallState::default();
    s.step_back(|| entries(&["a", "b", "c"]), "draft", 2);
    s.step_back(|| entries(&[]), "draft", 2);
    s.step_back(|| entries(&[]), "draft", 2);
    let out = s.step_forward();
    assert_eq!(out, replace_text("b"));
    let out = s.step_forward();
    assert_eq!(out, replace_text("a"));
    let out = s.step_forward();
    assert_eq!(out, replace_with_cursor("draft", 2));
}

#[test]
fn abandon_resets_state() {
    let mut s = RecallState::default();
    s.step_back(|| entries(&["ls"]), "draft", 0);
    assert!(s.is_walking());
    s.abandon();
    assert!(!s.is_walking());
    assert!(s.saved().is_none());
    let out = s.step_back(|| entries(&["new"]), "different-draft", 7);
    assert_eq!(out, replace_text("new"));
    assert_eq!(s.saved().map(|b| b.cursor), Some(7));
}

#[test]
fn up_with_empty_history_is_unchanged_and_does_not_save_buffer() {
    let mut s = RecallState::default();
    let out = s.step_back(|| entries(&[]), "draft", 2);
    assert_eq!(out, RecallOutcome::Unchanged);
    assert!(!s.is_walking());
    assert!(s.saved().is_none());
}

#[test]
fn up_skips_entry_that_already_matches_editor() {
    let mut s = RecallState::default();
    let out = s.step_back(|| entries(&["ls", "cd", "echo"]), "ls", 2);
    assert_eq!(out, replace_text("cd"));
}

#[test]
fn round_trip_preserves_cursor_at_arbitrary_position() {
    let mut s = RecallState::default();
    s.step_back(|| entries(&["ls"]), "git push origin", 4);
    let out = s.step_forward();
    assert_eq!(out, replace_with_cursor("git push origin", 4));
}

#[test]
fn each_step_up_shows_the_next_older_entry() {
    let mut s = RecallState::default();
    let items = ["a", "b", "c"];
    for item in items {
        assert_eq!(s.step_back(|| entries(&items), "draft", 0), replace_text(item));
    }
    assert_eq!(s.step_back(|| entries(&items), "draft", 0), RecallOutcome::Unchanged);
}
