use termica::keybindings::{
    cap_text, drawn_label, sc, shortcut_groups, shortcut_matches, shown_groups, Cap,
};

#[test]
fn macos_uses_cmd_linux_uses_ctrl_shift_for_new_tab() {
    let mac = &shortcut_groups(true)[0].items[0];
    assert_eq!(mac.desc, "New tab");
    assert_eq!(mac.keys, vec![Cap::Cmd, Cap::Key("T")]);

    let linux = &shortcut_groups(false)[0].items[0];
    assert_eq!(linux.keys, vec![Cap::Ctrl, Cap::Shift, Cap::Key("T")]);
}

#[test]
fn option_label_is_platform_specific() {
    let find_groups = |mac: bool| {
        shortcut_groups(mac)
            .into_iter()
            .flat_map(|g| g.items)
            .find(|s| s.desc == "Caret one word left")
            .unwrap()
    };
    assert!(find_groups(true).keys.contains(&Cap::Alt("Option")));
    assert!(find_groups(false).keys.contains(&Cap::Alt("Alt")));
}

#[test]
fn shortcut_matches_desc_keys_and_modifier_names() {
    let s = sc(vec![Cap::Cmd, Cap::Key("T")], "New tab");
    assert!(shortcut_matches(&s, ""));
    assert!(shortcut_matches(&s, "tab"));
    assert!(shortcut_matches(&s, "cmd"));
    assert!(shortcut_matches(&s, "t"));
    assert!(!shortcut_matches(&s, "quit"));
}

#[test]
fn every_shortcut_has_keys_and_desc() {
    for mac in [true, false] {
        for group in shortcut_groups(mac) {
            assert!(!group.title.is_empty());
            for item in group.items {
                assert!(!item.keys.is_empty(), "{} has no keys", item.desc);
                assert!(!item.desc.is_empty());
            }
        }
    }
}

#[test]
fn the_list_shows_what_the_query_matches_whatever_its_case() {
    let all: usize = shortcut_groups(true).iter().map(|g| g.items.len()).sum();
    let shown: usize = shown_groups(true, "").iter().map(|g| g.items.len()).sum();
    assert_eq!(shown, all);
    let tabs = shown_groups(true, "NEW Tab");
    assert_eq!(tabs.len(), 1);
    assert_eq!(tabs[0].title, "Window & tabs");
    assert_eq!(tabs[0].items.len(), 1);
    assert_eq!(tabs[0].items[0].desc, "New tab");
    assert!(shown_groups(true, "alt").is_empty());
    assert_eq!(shown_groups(false, "alt").len(), 2);
}

#[test]
fn command_is_drawn_as_a_symbol() {
    assert_eq!(drawn_label(&Cap::Cmd), None);
    assert_eq!(cap_text(&Cap::Cmd), "Cmd");
    assert_eq!(drawn_label(&Cap::Shift), Some("Shift"));
    assert_eq!(drawn_label(&Cap::Alt("Option")), Some("Option"));
    assert_eq!(drawn_label(&Cap::Key("]")), Some("]"));
}

#[test]
fn no_two_shortcuts_share_a_chord() {
    for is_macos in [true, false] {
        let chords: Vec<String> = termica::keybindings::shortcut_groups(is_macos)
            .iter()
            .flat_map(|g| g.items.iter().map(|s| format!("{:?}", s.keys)))
            .collect();
        assert_eq!(chords.len(), 25);
        for (i, chord) in chords.iter().enumerate() {
            assert!(!chords[..i].contains(chord), "{chord} is taken");
        }
    }
}
