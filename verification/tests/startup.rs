use termica::startup::{desktop_entry_contents, parse_arguments, APP_ID};

fn args(items: &[&str]) -> Vec<String> {
    items.iter().map(|s| s.to_string()).collect()
}

#[test]
fn desktop_entry_wm_class_matches_app_id() {
    let entry = desktop_entry_contents();
    assert!(entry.contains(&format!("StartupWMClass={APP_ID}\n")));
    assert!(entry.contains(&format!("Exec={APP_ID}\n")));
    assert!(entry.contains(&format!("Icon={APP_ID}\n")));
    assert!(entry.starts_with("[Desktop Entry]\n"));
    assert!(entry.contains("Type=Application\n"));
}

#[test]
fn the_desktop_entry_is_complete() {
    assert_eq!(
        desktop_entry_contents(),
        "[Desktop Entry]\nType=Application\nName=Termica\nComment=Native terminal workspace\n\
         Exec=termica\nIcon=termica\nTerminal=false\nStartupWMClass=termica\n\
         Categories=Development;System;TerminalEmulator;\n"
    );
}

#[test]
fn options_and_one_path_are_read_from_the_command_line() {
    let o = parse_arguments(&args(&[])).unwrap();
    assert_eq!((o.pick_chrome, o.pick_watermark, o.path), (false, false, None));
    let o = parse_arguments(&args(&["--pick-chrome", "/work", "--other"])).unwrap();
    assert_eq!((o.pick_chrome, o.pick_watermark), (true, false));
    assert_eq!(o.path.as_deref(), Some("/work"));
    let o = parse_arguments(&args(&["--pick-watermark", "-x"])).unwrap();
    assert_eq!((o.pick_chrome, o.pick_watermark), (false, true));
    assert_eq!(o.path.as_deref(), Some("-x"));
}

#[test]
fn more_than_one_path_is_refused() {
    let e = parse_arguments(&args(&["a", "--pick-chrome", "b", "c"])).unwrap_err();
    assert_eq!(e.given, 3);
    assert_eq!(
        e.message(),
        "termica: too many positional arguments (3 given); expected at most one path"
    );
}
