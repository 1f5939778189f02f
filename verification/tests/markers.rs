use termica::json::find_member;
use termica::markers::{parse_dcs_body, LifecycleEvent, ShellKind};

fn body(json: &str) -> Vec<u8> {
    let mut b = b"Termica;".to_vec();
    b.extend_from_slice(json.as_bytes());
    b
}

#[test]
fn integration_ready_zsh_v1() {
    let b = body(
        r#"{"type":"integration_ready","session":"x","value":{"shell":"zsh","version":1}}"#,
    );
    assert_eq!(
        parse_dcs_body(&b),
        Some(LifecycleEvent::IntegrationReady { shell: ShellKind::Zsh, version: 1 })
    );
}

#[test]
fn integration_ready_bash_v1() {
    let b = body(
        r#"{"type":"integration_ready","session":"x","value":{"shell":"bash","version":1}}"#,
    );
    assert_eq!(
        parse_dcs_body(&b),
        Some(LifecycleEvent::IntegrationReady { shell: ShellKind::Bash, version: 1 })
    );
}

#[test]
fn integration_ready_fish_v1() {
    let b = body(
        r#"{"type":"integration_ready","session":"x","value":{"shell":"fish","version":1}}"#,
    );
    assert_eq!(
        parse_dcs_body(&b),
        Some(LifecycleEvent::IntegrationReady { shell: ShellKind::Fish, version: 1 })
    );
}

#[test]
fn integration_ready_unknown_shell_carries_through() {
    let b = body(
        r#"{"type":"integration_ready","session":"x","value":{"shell":"ksh","version":1}}"#,
    );
    assert_eq!(
        parse_dcs_body(&b),
        Some(LifecycleEvent::IntegrationReady { shell: ShellKind::Unknown, version: 1 })
    );
}

#[test]
fn integration_error_carries_reason() {
    let b =
        body(r#"{"type":"integration_error","session":"x","value":"bash-preexec.sh missing"}"#);
    assert_eq!(
        parse_dcs_body(&b),
        Some(LifecycleEvent::IntegrationError { reason: "bash-preexec.sh missing".into() })
    );
}

#[test]
fn preexec_command_string() {
    let b = body(r#"{"type":"preexec","session":"x","value":"ls -la"}"#);
    assert_eq!(parse_dcs_body(&b), Some(LifecycleEvent::Preexec { command: "ls -la".into() }));
}

#[test]
fn shell_vars_array_of_names() {
    let b = body(r#"{"type":"shell_vars","session":"x","value":["HOME","HISTFILE","PATH"]}"#);
    assert_eq!(
        parse_dcs_body(&b),
        Some(LifecycleEvent::ShellVars {
            names: vec!["HOME".into(), "HISTFILE".into(), "PATH".into()]
        })
    );
}

#[test]
fn shell_vars_empty_array() {
    let b = body(r#"{"type":"shell_vars","session":"x","value":[]}"#);
    assert_eq!(parse_dcs_body(&b), Some(LifecycleEvent::ShellVars { names: vec![] }));
}

#[test]
fn shell_vars_skips_non_string_elements() {
    let b = body(r#"{"type":"shell_vars","session":"x","value":["A",3,"B"]}"#);
    assert_eq!(
        parse_dcs_body(&b),
        Some(LifecycleEvent::ShellVars { names: vec!["A".into(), "B".into()] })
    );
}

#[test]
fn command_finished_zero_exit() {
    let b = body(r#"{"type":"command_finished","session":"x","value":0}"#);
    assert_eq!(parse_dcs_body(&b), Some(LifecycleEvent::CommandFinished { exit: 0 }));
}

#[test]
fn command_finished_nonzero_exit() {
    let b = body(r#"{"type":"command_finished","session":"x","value":127}"#);
    assert_eq!(parse_dcs_body(&b), Some(LifecycleEvent::CommandFinished { exit: 127 }));
}

#[test]
fn command_finished_accepts_string_form() {
    let b = body(r#"{"type":"command_finished","session":"x","value":"42"}"#);
    assert_eq!(parse_dcs_body(&b), Some(LifecycleEvent::CommandFinished { exit: 42 }));
}

#[test]
fn precmd_carries_cwd() {
    let b = body(r#"{"type":"precmd","session":"x","value":"/Users/tim/code"}"#);
    assert_eq!(
        parse_dcs_body(&b),
        Some(LifecycleEvent::Precmd { cwd: "/Users/tim/code".into() })
    );
}

#[test]
fn cwd_carries_cwd() {
    let b = body(r#"{"type":"cwd","session":"x","value":"/tmp"}"#);
    assert_eq!(parse_dcs_body(&b), Some(LifecycleEvent::Cwd { cwd: "/tmp".into() }));
}

#[test]
fn prompt_vars_carries_object() {
    let b = body(
        r#"{"type":"prompt_vars","session":"x","value":{"git_branch":"main","git_dirty":false}}"#,
    );
    let parsed = parse_dcs_body(&b).expect("should parse");
    match parsed {
        LifecycleEvent::PromptVars { vars } => {
            assert_eq!(find_member(&vars, "git_branch").and_then(|v| v.as_str()), Some("main"));
            assert_eq!(find_member(&vars, "git_dirty").and_then(|v| v.as_bool()), Some(false));
        }
        other => panic!("expected PromptVars, got {other:?}"),
    }
}

#[test]
fn command_aborted_carries_reason() {
    let b = body(r#"{"type":"command_aborted","session":"x","value":"syntax error"}"#);
    assert_eq!(
        parse_dcs_body(&b),
        Some(LifecycleEvent::CommandAborted { reason: "syntax error".into() })
    );
}

#[test]
fn missing_termica_prefix_returns_none() {
    let b = b"q...some-other-dcs-body".to_vec();
    assert_eq!(parse_dcs_body(&b), None);
}

#[test]
fn malformed_json_returns_none() {
    let b = body(r#"{"type":"integration_ready","value":{not json}"#);
    assert_eq!(parse_dcs_body(&b), None);
}

#[test]
fn unknown_type_returns_none() {
    let b = body(r#"{"type":"yolo","session":"x","value":42}"#);
    assert_eq!(parse_dcs_body(&b), None);
}

#[test]
fn completion_marker_parses_id_and_raw_lines() {
    let b = body(
        r#"{"type":"completion","session":"x","id":7,"value":["hello\talias hello=echo HI","help","deployments    deploy    apps/v1"]}"#,
    );
    assert_eq!(
        parse_dcs_body(&b),
        Some(LifecycleEvent::Completion {
            id: 7,
            lines: vec![
                "hello\talias hello=echo HI".into(),
                "help".into(),
                "deployments    deploy    apps/v1".into(),
            ],
        })
    );
}

#[test]
fn completion_marker_empty_value_is_empty_list() {
    let b = body(r#"{"type":"completion","session":"x","id":1,"value":[]}"#);
    assert_eq!(parse_dcs_body(&b), Some(LifecycleEvent::Completion { id: 1, lines: vec![] }));
}

#[test]
fn completion_marker_missing_id_returns_none() {
    let b = body(r#"{"type":"completion","session":"x","value":[]}"#);
    assert_eq!(parse_dcs_body(&b), None);
}

#[test]
fn completion_marker_skips_non_string_line() {
    let b = body(r#"{"type":"completion","session":"x","id":2,"value":["ok",42,"two"]}"#);
    assert_eq!(
        parse_dcs_body(&b),
        Some(LifecycleEvent::Completion { id: 2, lines: vec!["ok".into(), "two".into()] })
    );
}

#[test]
fn continuation_event_parses() {
    let b = body(r#"{"type":"continuation","session":"x","value":""}"#);
    assert_eq!(parse_dcs_body(&b), Some(LifecycleEvent::Continuation));
}

#[test]
fn continuation_event_parses_without_value() {
    let b = body(r#"{"type":"continuation","session":"x"}"#);
    assert_eq!(parse_dcs_body(&b), Some(LifecycleEvent::Continuation));
}

#[test]
fn missing_type_field_returns_none() {
    let b = body(r#"{"session":"x","value":42}"#);
    assert_eq!(parse_dcs_body(&b), None);
}

#[test]
fn empty_body_returns_none() {
    assert_eq!(parse_dcs_body(b""), None);
}

#[test]
fn termica_prefix_without_json_returns_none() {
    let b = b"Termica;".to_vec();
    assert_eq!(parse_dcs_body(&b), None);
}

#[test]
fn prompt_vars_keep_every_number() {
    let b = body(
        r#"{"type":"prompt_vars","session":"x","value":{"load":0.25,"jobs":3,"offset":-2}}"#,
    );
    match parse_dcs_body(&b).expect("should parse") {
        LifecycleEvent::PromptVars { vars } => {
            let of = |key: &str| find_member(&vars, key).unwrap();
            assert_eq!(*of("load"), termica::json::Json::Number("0.25".to_string()));
            assert_eq!(*of("jobs"), termica::json::Json::Unsigned(3));
            assert_eq!(*of("offset"), termica::json::Json::Negative(-2));
        }
        other => panic!("expected PromptVars, got {other:?}"),
    }
}
