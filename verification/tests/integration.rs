use termica::integration::{
    atomic_temp_name, base_name, managed_spawn_for_inner, new_session_id, wrapper_files,
    wrapper_prefix, Bootstraps, ManagedSpawn, ShellSpec, SpawnError,
};

fn scripts() -> Bootstraps {
    Bootstraps {
        zsh: "termica_emit_raw zsh".to_string(),
        bash: "termica_emit_raw bash".to_string(),
        bash_preexec: "preexec".to_string(),
        fish: "termica_emit_raw fish".to_string(),
    }
}

fn plan(shell: ShellSpec, session: &str, opt_out: bool) -> ManagedSpawn {
    managed_spawn_for_inner(shell, session, opt_out, &scripts().fish, Some("/tmp/wrap"))
        .expect("spawn")
}

fn env_keys(spec: &ManagedSpawn) -> Vec<&str> {
    spec.env.iter().map(|(k, _)| k.as_str()).collect()
}

#[test]
fn shell_spec_from_shell_path_handles_bash() {
    assert_eq!(ShellSpec::from_shell_path("/bin/bash"), ShellSpec::Bash);
    assert_eq!(ShellSpec::from_shell_path("/usr/local/bin/bash"), ShellSpec::Bash);
}

#[test]
fn shell_spec_from_shell_path_handles_zsh() {
    assert_eq!(ShellSpec::from_shell_path("/bin/zsh"), ShellSpec::Zsh);
    assert_eq!(ShellSpec::from_shell_path("zsh"), ShellSpec::Zsh);
}

#[test]
fn shell_spec_from_shell_path_handles_fish() {
    assert_eq!(ShellSpec::from_shell_path("/opt/homebrew/bin/fish"), ShellSpec::Fish);
}

#[test]
fn shell_spec_from_shell_path_defaults_to_zsh_for_unknown() {
    assert_eq!(ShellSpec::from_shell_path("/bin/ksh"), ShellSpec::Zsh);
    assert_eq!(ShellSpec::from_shell_path(""), ShellSpec::Zsh);
}

#[test]
fn names_of_files_are_those_of_the_standard_library() {
    for path in [
        "", "/", "//", ".", "..", "./", "a", "a/", "a//", "/a", "a/b", "a/.", "a/./", "a/..", "a/../b",
        "./a", "/bin/bash/.", "//bin//bash//", "a/...", ".a", "a/.b/", "é/ü",
    ] {
        let expected = std::path::Path::new(path).file_name().and_then(|s| s.to_str());
        assert_eq!(base_name(path).as_deref(), expected, "{path:?}");
    }
}

#[test]
fn managed_spawn_zsh_uses_zdotdir_wrapper() {
    let spec = plan(ShellSpec::Zsh, "session-id", false);
    assert_eq!(spec.argv, vec!["zsh".to_string(), "-i".into()]);
    assert!(spec.pty_bootstrap.is_none());
    let keys = env_keys(&spec);
    assert!(keys.contains(&"TERMICA_SESSION_ID"));
    assert!(keys.contains(&"TERM_PROGRAM"));
    assert!(keys.contains(&"ZDOTDIR"));
    let zdotdir = spec.env.iter().find(|(k, _)| k == "ZDOTDIR").map(|(_, v)| v.clone());
    assert_eq!(zdotdir.as_deref(), Some("/tmp/wrap"));
    let files = wrapper_files(ShellSpec::Zsh, false, &scripts());
    let zshrc = files.iter().find(|f| f.name == ".zshrc").expect(".zshrc");
    assert!(zshrc.contents.contains("termica_emit_raw"));
    let zshenv = files.iter().find(|f| f.name == ".zshenv").expect(".zshenv");
    assert!(zshenv.contents.is_empty());
}

#[test]
fn managed_spawn_fish_carries_init_command() {
    let spec = plan(ShellSpec::Fish, "x", false);
    assert_eq!(spec.argv[0], "fish");
    assert!(spec.argv.iter().any(|a| a == "--no-config"));
    assert!(spec.argv.iter().any(|a| a == "--init-command"));
    assert!(spec.pty_bootstrap.is_none());
    assert!(spec.argv.iter().any(|a| a.contains("termica_emit_raw")));
}

#[test]
fn opt_out_uses_unmanaged_spawn() {
    let spec = plan(ShellSpec::Zsh, "x", true);
    assert_eq!(spec.argv, vec!["zsh", "-i"]);
    assert!(spec.pty_bootstrap.is_none());
}

#[test]
fn unmanaged_spawn_still_sets_termica_env() {
    let spec = plan(ShellSpec::Bash, "x", true);
    let keys = env_keys(&spec);
    assert!(keys.contains(&"TERM_PROGRAM"));
    assert!(keys.contains(&"TERMICA_SESSION_ID"));
}

#[test]
fn new_session_id_returns_uuid_shape() {
    let id = new_session_id();
    assert_eq!(id.len(), 36);
    assert_eq!(id.chars().filter(|&c| c == '-').count(), 4);
}

#[test]
fn a_session_id_is_a_random_uuid_in_lower_case() {
    for _ in 0..50 {
        let id: Vec<char> = new_session_id().chars().collect();
        for (i, c) in id.iter().enumerate() {
            if [8, 13, 18, 23].contains(&i) {
                assert_eq!(*c, '-');
            } else {
                assert!(c.is_ascii_hexdigit() && !c.is_ascii_uppercase());
            }
        }
        assert_eq!(id[14], '4');
        assert!(['8', '9', 'a', 'b'].contains(&id[19]));
    }
}

#[test]
fn bash_reads_the_file_that_is_written_for_it() {
    let spec = plan(ShellSpec::Bash, "s", false);
    assert_eq!(
        spec.argv,
        vec!["bash", "--noprofile", "--noediting", "--rcfile", "/tmp/wrap/bash-bootstrap.bash", "-i"]
    );
    let files = wrapper_files(ShellSpec::Bash, false, &scripts());
    let names: Vec<&str> = files.iter().map(|f| f.name.as_str()).collect();
    assert_eq!(names, vec!["bash-bootstrap.bash", "bash-preexec.sh"]);
    assert_eq!(files[0].contents, scripts().bash);
    assert_eq!(files[1].contents, scripts().bash_preexec);
}

#[test]
fn the_environment_says_where_the_shell_runs() {
    let spec = plan(ShellSpec::Fish, "id-1", false);
    let expected: Vec<(String, String)> = [
        ("TERM_PROGRAM", "Termica"),
        ("TERMICA_SESSION_ID", "id-1"),
        ("TERMICA_INTEGRATION_VERSION", "1"),
        ("TERMICA_SHELL_INTEGRATION", "1"),
        ("TERMICA_SHELL", "fish"),
    ]
    .iter()
    .map(|(k, v)| (k.to_string(), v.to_string()))
    .collect();
    assert_eq!(spec.env, expected);
}

#[test]
fn a_directory_without_a_textual_path_is_an_error_only_where_one_is_needed() {
    for shell in [ShellSpec::Zsh, ShellSpec::Bash] {
        let r = managed_spawn_for_inner(shell, "s", false, "", None);
        assert!(matches!(r, Err(SpawnError::NonUtf8WrapperPath)));
        assert!(managed_spawn_for_inner(shell, "s", true, "", None).is_ok());
    }
    assert!(managed_spawn_for_inner(ShellSpec::Fish, "s", false, "", None).is_ok());
}

#[test]
fn only_zsh_and_bash_need_a_directory() {
    assert_eq!(wrapper_prefix(ShellSpec::Zsh, false), Some("zsh-wrapper-"));
    assert_eq!(wrapper_prefix(ShellSpec::Bash, false), Some("bash-wrapper-"));
    assert_eq!(wrapper_prefix(ShellSpec::Fish, false), None);
    assert_eq!(wrapper_prefix(ShellSpec::Zsh, true), None);
    assert!(wrapper_files(ShellSpec::Zsh, true, &scripts()).is_empty());
}

#[test]
fn a_file_is_written_under_a_hidden_name_first() {
    assert_eq!(atomic_temp_name(Some(".zshrc")), "..zshrc.tmp");
    assert_eq!(atomic_temp_name(None), ".termica-tmp.tmp");
}
