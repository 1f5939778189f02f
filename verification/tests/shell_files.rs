use termica::history::shell_files::{
    parse_bash_history, parse_fish_history, parse_zsh_history, ParsedEntry,
};

#[test]
fn zsh_extended_single_entry() {
    let bytes = b": 1700000000:0;ls -la\n";
    let got = parse_zsh_history(bytes);
    assert_eq!(
        got,
        vec![ParsedEntry {
            text: "ls -la".to_string(),
            started_at_ms: Some(1_700_000_000_000)
        }]
    );
}

#[test]
fn zsh_extended_two_entries() {
    let bytes = b": 1700000000:0;ls\n: 1700000005:0;cd ..\n";
    let got = parse_zsh_history(bytes);
    assert_eq!(
        got,
        vec![
            ParsedEntry { text: "ls".to_string(), started_at_ms: Some(1_700_000_000_000) },
            ParsedEntry { text: "cd ..".to_string(), started_at_ms: Some(1_700_000_005_000) },
        ]
    );
}

#[test]
fn zsh_plain_single_entry() {
    let bytes = b"ls -la\n";
    let got = parse_zsh_history(bytes);
    assert_eq!(got, vec![ParsedEntry { text: "ls -la".to_string(), started_at_ms: None }]);
}

#[test]
fn zsh_multiline_command_via_backslash_continuation() {
    let bytes = b": 1700000000:0;for i in 1 2 3; do\\\n  echo $i\\\ndone\n";
    let got = parse_zsh_history(bytes);
    assert_eq!(
        got,
        vec![ParsedEntry {
            text: "for i in 1 2 3; do\n  echo $i\ndone".to_string(),
            started_at_ms: Some(1_700_000_000_000),
        }]
    );
}

#[test]
fn zsh_handles_empty_lines() {
    let bytes = b"\n: 1700000000:0;ls\n\n";
    let got = parse_zsh_history(bytes);
    assert_eq!(
        got,
        vec![ParsedEntry { text: "ls".to_string(), started_at_ms: Some(1_700_000_000_000) }]
    );
}

#[test]
fn zsh_handles_missing_final_newline() {
    let bytes = b": 1700000000:0;ls";
    let got = parse_zsh_history(bytes);
    assert_eq!(got.len(), 1);
    assert_eq!(got[0].text, "ls");
}

#[test]
fn zsh_handles_unparseable_extended_prefix_as_plain() {
    let bytes = b": broken-line-no-semicolon\n";
    let got = parse_zsh_history(bytes);
    assert_eq!(got.len(), 1);
    assert_eq!(got[0].text, ": broken-line-no-semicolon");
    assert_eq!(got[0].started_at_ms, None);
}

#[test]
fn bash_plain_one_entry_per_line() {
    let bytes = b"ls\ncd ..\necho hi\n";
    let got = parse_bash_history(bytes);
    let texts: Vec<_> = got.iter().map(|e| e.text.as_str()).collect();
    assert_eq!(texts, vec!["ls", "cd ..", "echo hi"]);
    assert!(got.iter().all(|e| e.started_at_ms.is_none()));
}

#[test]
fn bash_timestamped_pairs_hash_lines_with_commands() {
    let bytes = b"#1700000000\nls\n#1700000005\ncd ..\n";
    let got = parse_bash_history(bytes);
    assert_eq!(
        got,
        vec![
            ParsedEntry { text: "ls".to_string(), started_at_ms: Some(1_700_000_000_000) },
            ParsedEntry { text: "cd ..".to_string(), started_at_ms: Some(1_700_000_005_000) },
        ]
    );
}

#[test]
fn bash_orphan_timestamp_is_dropped_silently() {
    let bytes = b"#1700000000\n";
    let got = parse_bash_history(bytes);
    assert!(got.is_empty());
}

#[test]
fn bash_command_starting_with_hash_is_not_treated_as_timestamp() {
    let bytes = b"#not-a-ts\nreal\n";
    let got = parse_bash_history(bytes);
    let texts: Vec<_> = got.iter().map(|e| e.text.as_str()).collect();
    assert_eq!(texts, vec!["#not-a-ts", "real"]);
}

#[test]
fn fish_two_entries_with_when() {
    let bytes = b"- cmd: ls -la\n  when: 1700000000\n- cmd: cd ..\n  when: 1700000005\n";
    let got = parse_fish_history(bytes);
    assert_eq!(
        got,
        vec![
            ParsedEntry { text: "ls -la".to_string(), started_at_ms: Some(1_700_000_000_000) },
            ParsedEntry { text: "cd ..".to_string(), started_at_ms: Some(1_700_000_005_000) },
        ]
    );
}

#[test]
fn fish_ignores_paths_block() {
    let bytes = b"- cmd: ls\n  when: 1700000000\n  paths:\n    - /home/me\n    - /tmp\n";
    let got = parse_fish_history(bytes);
    assert_eq!(got.len(), 1);
    assert_eq!(got[0].text, "ls");
    assert_eq!(got[0].started_at_ms, Some(1_700_000_000_000));
}

#[test]
fn fish_decodes_escaped_newline() {
    let bytes = b"- cmd: line1\\nline2\n  when: 1700000000\n";
    let got = parse_fish_history(bytes);
    assert_eq!(got[0].text, "line1\nline2");
}

#[test]
fn fish_decodes_escaped_backslash() {
    let bytes = b"- cmd: echo \\\\n\n  when: 1700000000\n";
    let got = parse_fish_history(bytes);
    assert_eq!(got[0].text, "echo \\n");
}

#[test]
fn fish_entry_without_when_still_recorded() {
    let bytes = b"- cmd: ls\n";
    let got = parse_fish_history(bytes);
    assert_eq!(got, vec![ParsedEntry { text: "ls".to_string(), started_at_ms: None }]);
}

#[test]
fn empty_input_yields_empty_output() {
    assert!(parse_zsh_history(b"").is_empty());
    assert!(parse_bash_history(b"").is_empty());
    assert!(parse_fish_history(b"").is_empty());
}

#[test]
fn zsh_histories_concatenate() {
    let first = b": 1:0;ls\nfor x\\\ndone\n".to_vec();
    let second = b": 2:0;cd\n\npwd\n".to_vec();
    let mut both = first.clone();
    both.extend_from_slice(&second);
    let mut expected = termica::history::shell_files::parse_zsh_history(&first);
    expected.extend(termica::history::shell_files::parse_zsh_history(&second));
    assert_eq!(expected.len(), 4);
    assert_eq!(termica::history::shell_files::parse_zsh_history(&both), expected);
}
