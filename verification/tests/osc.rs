use termica::markers::{LifecycleEvent, ShellKind};
use termica::osc::{parse_osc7_cwd, OscSniffer};

#[test]
fn parse_osc7_strips_file_scheme_and_hostname() {
    let p = parse_osc7_cwd("file://myhost.local/Users/tim/code").unwrap();
    assert_eq!(p, "/Users/tim/code");
}

#[test]
fn parse_osc7_strips_file_scheme_with_empty_hostname() {
    let p = parse_osc7_cwd("file:///Users/tim/code").unwrap();
    assert_eq!(p, "/Users/tim/code");
}

#[test]
fn parse_osc7_accepts_bare_absolute_path() {
    let p = parse_osc7_cwd("/Users/tim/code").unwrap();
    assert_eq!(p, "/Users/tim/code");
}

#[test]
fn parse_osc7_percent_decodes_spaces() {
    let p = parse_osc7_cwd("file:///Users/tim/A%20space").unwrap();
    assert_eq!(p, "/Users/tim/A space");
}

#[test]
fn parse_osc7_percent_decodes_unicode() {
    let p = parse_osc7_cwd("file:///Users/tim/caf%C3%A9").unwrap();
    assert_eq!(p, "/Users/tim/café");
}

#[test]
fn parse_osc7_returns_none_on_empty_payload() {
    assert!(parse_osc7_cwd("").is_none());
    assert!(parse_osc7_cwd("file://").is_none());
}

#[test]
fn parse_osc7_keeps_invalid_percent_escapes_verbatim() {
    let p = parse_osc7_cwd("file:///oops%ZZ").unwrap();
    assert_eq!(p, "/oops%ZZ");
}

#[test]
fn sniffer_picks_up_osc7_via_full_byte_stream() {
    let mut sniffer = OscSniffer::new();
    sniffer.feed(b"\x1b]7;file:///tmp/seen\x07");
    assert_eq!(sniffer.state().cwd, Some("/tmp/seen".to_string()));
}

#[test]
fn sniffer_picks_up_osc7_terminated_by_st() {
    let mut sniffer = OscSniffer::new();
    sniffer.feed(b"\x1b]7;file:///tmp/st-terminated\x1b\\");
    assert_eq!(sniffer.state().cwd, Some("/tmp/st-terminated".to_string()));
}

#[test]
fn sniffer_handles_osc7_split_across_feed_calls() {
    let bytes = b"\x1b]7;file:///tmp/split\x07";
    let mut sniffer = OscSniffer::new();
    for b in bytes {
        sniffer.feed_byte(*b);
    }
    assert_eq!(sniffer.state().cwd, Some("/tmp/split".to_string()));
}

#[test]
fn sniffer_ignores_unrelated_osc_codes() {
    let mut sniffer = OscSniffer::new();
    sniffer.feed(b"\x1b]0;some title\x07");
    sniffer.feed(b"\x1b]2;another title\x07");
    sniffer.feed(b"\x1b]4;1;rgb:ff/00/00\x07");
    assert!(sniffer.state().cwd.is_none());
    assert!(sniffer.drain_events().is_empty());
}

#[test]
fn sniffer_ignores_foreign_osc_133() {
    let mut sniffer = OscSniffer::new();
    sniffer.feed(b"\x1b]133;A\x07");
    sniffer.feed(b"\x1b]133;B\x07");
    sniffer.feed(b"\x1b]133;C\x07");
    sniffer.feed(b"\x1b]133;D;0\x07");
    assert!(sniffer.drain_events().is_empty());
}

#[test]
fn sniffer_ignores_foreign_osc_1337() {
    let mut sniffer = OscSniffer::new();
    sniffer.feed(b"\x1b]1337;ShellIntegrationVersion=12\x07");
    assert!(sniffer.drain_events().is_empty());
}

#[test]
fn sniffer_emits_integration_ready_via_full_byte_stream() {
    let mut sniffer = OscSniffer::new();
    sniffer.feed(
        b"\x1bPTermica;{\"type\":\"integration_ready\",\"session\":\"x\",\"value\":{\"shell\":\"zsh\",\"version\":1}}\x1b\\",
    );
    assert_eq!(
        sniffer.drain_events(),
        vec![LifecycleEvent::IntegrationReady { shell: ShellKind::Zsh, version: 1 }]
    );
}

#[test]
fn sniffer_emits_full_command_lifecycle_in_order() {
    let mut sniffer = OscSniffer::new();
    sniffer.feed(
        b"\x1bPTermica;{\"type\":\"precmd\",\"session\":\"x\",\"value\":\"/home/u\"}\x1b\\",
    );
    sniffer
        .feed(b"\x1bPTermica;{\"type\":\"preexec\",\"session\":\"x\",\"value\":\"ls\"}\x1b\\");
    sniffer.feed(
        b"\x1bPTermica;{\"type\":\"command_finished\",\"session\":\"x\",\"value\":0}\x1b\\",
    );
    sniffer.feed(
        b"\x1bPTermica;{\"type\":\"precmd\",\"session\":\"x\",\"value\":\"/home/u\"}\x1b\\",
    );
    assert_eq!(
        sniffer.drain_events(),
        vec![
            LifecycleEvent::Precmd { cwd: "/home/u".to_string() },
            LifecycleEvent::Preexec { command: "ls".into() },
            LifecycleEvent::CommandFinished { exit: 0 },
            LifecycleEvent::Precmd { cwd: "/home/u".to_string() },
        ]
    );
}

#[test]
fn sniffer_precmd_updates_both_event_stream_and_osc_state_cwd() {
    let mut sniffer = OscSniffer::new();
    sniffer.feed(
        b"\x1bPTermica;{\"type\":\"precmd\",\"session\":\"x\",\"value\":\"/Users/tim/code\"}\x1b\\",
    );
    assert_eq!(sniffer.state().cwd, Some("/Users/tim/code".to_string()));
    assert_eq!(
        sniffer.drain_events(),
        vec![LifecycleEvent::Precmd { cwd: "/Users/tim/code".to_string() }]
    );
}

#[test]
fn sniffer_dcs_split_across_feed_calls() {
    let bytes =
        b"\x1bPTermica;{\"type\":\"integration_ready\",\"session\":\"x\",\"value\":{\"shell\":\"zsh\",\"version\":1}}\x1b\\";
    let mut sniffer = OscSniffer::new();
    for b in bytes {
        sniffer.feed_byte(*b);
    }
    assert_eq!(
        sniffer.drain_events(),
        vec![LifecycleEvent::IntegrationReady { shell: ShellKind::Zsh, version: 1 }]
    );
}

#[test]
fn sniffer_ignores_foreign_dcs_sequences() {
    let mut sniffer = OscSniffer::new();
    sniffer.feed(b"\x1bPq#0;2;0;0;0not-termica\x1b\\");
    assert!(sniffer.drain_events().is_empty());
}

#[test]
fn drain_events_yields_then_empties_the_queue() {
    let mut sniffer = OscSniffer::new();
    sniffer
        .feed(b"\x1bPTermica;{\"type\":\"precmd\",\"session\":\"x\",\"value\":\"/tmp\"}\x1b\\");
    assert_eq!(
        sniffer.drain_events(),
        vec![LifecycleEvent::Precmd { cwd: "/tmp".to_string() }]
    );
    assert!(sniffer.drain_events().is_empty());
}

#[test]
fn later_osc7_overwrites_earlier() {
    let mut sniffer = OscSniffer::new();
    sniffer.feed(b"\x1b]7;file:///one\x07");
    sniffer.feed(b"\x1b]7;file:///two\x07");
    assert_eq!(sniffer.state().cwd, Some("/two".to_string()));
}

#[test]
fn a_directory_that_is_seeded_holds_until_one_is_reported() {
    let mut sniffer = OscSniffer::new();
    sniffer.seed_cwd("/restored".to_string());
    assert_eq!(sniffer.state().cwd.as_deref(), Some("/restored"));
    sniffer.feed(b"\x1b]7;file:///two\x07");
    assert_eq!(sniffer.state().cwd.as_deref(), Some("/two"));
}

#[test]
fn a_path_is_reported_in_three_forms() {
    let cwd = termica::osc::parse_osc7_cwd;
    for payload in ["/a b/\u{e9}", "file:///a b/\u{e9}", "file://host/a b/\u{e9}"] {
        assert_eq!(cwd(payload).as_deref(), Some("/a b/\u{e9}"));
    }
    assert_eq!(cwd(""), None);
    assert_eq!(cwd("file://"), None);
    // Bytes that are no UTF-8 leave the path absolute.
    let broken = cwd("file://host/%FF%2Fx").unwrap();
    assert!(broken.starts_with('/'));
    assert_eq!(broken, "/\u{fffd}/x");
    assert_eq!(cwd("/100%25/%7Euser").as_deref(), Some("/100%/~user"));
}

#[test]
fn escapes_have_digits_of_either_case() {
    let cwd = termica::osc::parse_osc7_cwd;
    for payload in ["/%C3%A9/%7E", "/%c3%a9/%7e", "/%c3%A9/%7E", "/\u{e9}/~"] {
        assert_eq!(cwd(payload).as_deref(), Some("/\u{e9}/~"), "{payload}");
    }
}
