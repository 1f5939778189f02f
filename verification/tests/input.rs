use termica::input::{
    classify_wheel, compose_alt_screen_frame_bytes, encode_event, encode_key, is_copy_shortcut,
    InputEvent, Key, Modifiers, TerminalModes, WheelOutcome,
};

fn no_mods() -> Modifiers {
    Modifiers::default()
}

fn just_ctrl() -> Modifiers {
    Modifiers { ctrl: true, ..Modifiers::default() }
}

fn default_modes() -> TerminalModes {
    TerminalModes::default()
}

fn app_cursor_modes() -> TerminalModes {
    TerminalModes { application_cursor: true, ..TerminalModes::default() }
}

fn bracketed_paste_modes() -> TerminalModes {
    TerminalModes { bracketed_paste: true, ..TerminalModes::default() }
}

fn text_event(s: &str) -> InputEvent {
    InputEvent::Text(s.to_string())
}

fn key_event(key: Key, modifiers: Modifiers) -> InputEvent {
    InputEvent::Key { key, pressed: true, modifiers }
}

fn key_release(key: Key) -> InputEvent {
    InputEvent::Key { key, pressed: false, modifiers: no_mods() }
}

#[test]
fn text_event_encodes_as_utf8() {
    let bytes = encode_event(&text_event("hello"), default_modes()).expect("text encodes");
    assert_eq!(bytes, b"hello");
}

#[test]
fn text_event_passes_through_non_ascii() {
    let bytes = encode_event(&text_event("café"), default_modes()).expect("text encodes");
    assert_eq!(bytes, "café".as_bytes());
}

#[test]
fn empty_text_event_returns_none() {
    assert!(encode_event(&text_event(""), default_modes()).is_none());
}

#[test]
fn paste_event_encodes_as_raw_bytes_when_bracketed_paste_off() {
    let bytes = encode_event(&InputEvent::Paste("ls -la".into()), default_modes())
        .expect("paste encodes");
    assert_eq!(bytes, b"ls -la");
}

#[test]
fn paste_event_wraps_in_brackets_when_bracketed_paste_on() {
    let bytes = encode_event(&InputEvent::Paste("ls -la".into()), bracketed_paste_modes())
        .expect("paste encodes");
    assert_eq!(bytes, b"\x1b[200~ls -la\x1b[201~");
}

#[test]
fn empty_paste_event_returns_none() {
    assert!(encode_event(&InputEvent::Paste(String::new()), default_modes()).is_none());
    assert!(
        encode_event(&InputEvent::Paste(String::new()), bracketed_paste_modes()).is_none()
    );
}

#[test]
fn multiline_paste_wraps_payload_once_when_bracketed_paste_on() {
    let payload = "echo one\necho two\necho three";
    let bytes = encode_event(&InputEvent::Paste(payload.into()), bracketed_paste_modes())
        .expect("paste encodes");
    let mut expected = Vec::new();
    expected.extend_from_slice(b"\x1b[200~");
    expected.extend_from_slice(payload.as_bytes());
    expected.extend_from_slice(b"\x1b[201~");
    assert_eq!(bytes, expected);
}

#[test]
fn key_release_returns_none() {
    assert!(encode_event(&key_release(Key::A), default_modes()).is_none());
    assert!(encode_event(&key_release(Key::Enter), default_modes()).is_none());
}

#[test]
fn enter_encodes_as_cr() {
    assert_eq!(
        encode_event(&key_event(Key::Enter, no_mods()), default_modes()).unwrap(),
        b"\r"
    );
}

#[test]
fn backspace_encodes_as_del() {
    assert_eq!(
        encode_event(&key_event(Key::Backspace, no_mods()), default_modes()).unwrap(),
        b"\x7f"
    );
}

#[test]
fn tab_encodes_as_tab() {
    assert_eq!(encode_event(&key_event(Key::Tab, no_mods()), default_modes()).unwrap(), b"\t");
}

#[test]
fn escape_encodes_as_esc() {
    assert_eq!(
        encode_event(&key_event(Key::Escape, no_mods()), default_modes()).unwrap(),
        b"\x1b"
    );
}

#[test]
fn arrow_keys_encode_as_csi() {
    assert_eq!(
        encode_event(&key_event(Key::ArrowUp, no_mods()), default_modes()).unwrap(),
        b"\x1b[A"
    );
    assert_eq!(
        encode_event(&key_event(Key::ArrowDown, no_mods()), default_modes()).unwrap(),
        b"\x1b[B"
    );
    assert_eq!(
        encode_event(&key_event(Key::ArrowRight, no_mods()), default_modes()).unwrap(),
        b"\x1b[C"
    );
    assert_eq!(
        encode_event(&key_event(Key::ArrowLeft, no_mods()), default_modes()).unwrap(),
        b"\x1b[D"
    );
}

#[test]
fn home_end_pageup_pagedown_delete_encode_as_csi() {
    assert_eq!(
        encode_event(&key_event(Key::Home, no_mods()), default_modes()).unwrap(),
        b"\x1b[H"
    );
    assert_eq!(
        encode_event(&key_event(Key::End, no_mods()), default_modes()).unwrap(),
        b"\x1b[F"
    );
    assert_eq!(
        encode_event(&key_event(Key::PageUp, no_mods()), default_modes()).unwrap(),
        b"\x1b[5~"
    );
    assert_eq!(
        encode_event(&key_event(Key::PageDown, no_mods()), default_modes()).unwrap(),
        b"\x1b[6~"
    );
    assert_eq!(
        encode_event(&key_event(Key::Delete, no_mods()), default_modes()).unwrap(),
        b"\x1b[3~"
    );
    assert_eq!(
        encode_event(&key_event(Key::Insert, no_mods()), default_modes()).unwrap(),
        b"\x1b[2~"
    );
}

#[test]
fn ctrl_a_through_z_map_to_c0_control_bytes() {
    let cases: &[(Key, u8)] = &[
        (Key::A, 0x01),
        (Key::B, 0x02),
        (Key::C, 0x03),
        (Key::D, 0x04),
        (Key::L, 0x0c),
        (Key::M, 0x0d),
        (Key::Z, 0x1a),
    ];
    for (key, want) in cases {
        let got =
            encode_event(&key_event(*key, just_ctrl()), default_modes()).expect("ctrl letter");
        assert_eq!(got, vec![*want], "Ctrl+{key:?}");
    }
}

#[test]
fn ctrl_c_sends_etx_signal_byte() {
    assert_eq!(
        encode_event(&key_event(Key::C, just_ctrl()), default_modes()).unwrap(),
        vec![0x03]
    );
}

#[test]
fn function_keys_f1_to_f4_use_ss3_form() {
    assert_eq!(
        encode_event(&key_event(Key::F1, no_mods()), default_modes()).unwrap(),
        b"\x1bOP"
    );
    assert_eq!(
        encode_event(&key_event(Key::F4, no_mods()), default_modes()).unwrap(),
        b"\x1bOS"
    );
}

#[test]
fn function_keys_f5_and_up_use_tilde_form() {
    assert_eq!(
        encode_event(&key_event(Key::F5, no_mods()), default_modes()).unwrap(),
        b"\x1b[15~"
    );
    assert_eq!(
        encode_event(&key_event(Key::F12, no_mods()), default_modes()).unwrap(),
        b"\x1b[24~"
    );
}

#[test]
fn wheel_zero_lines_is_none() {
    assert!(classify_wheel(0, false, default_modes()).is_none());
    assert!(classify_wheel(0, true, default_modes()).is_none());
}

#[test]
fn wheel_main_screen_scrolls_display() {
    assert_eq!(classify_wheel(3, false, default_modes()), Some(WheelOutcome::ScrollDisplay(3)));
    assert_eq!(
        classify_wheel(-5, false, default_modes()),
        Some(WheelOutcome::ScrollDisplay(-5))
    );
}

#[test]
fn wheel_alt_screen_emits_arrow_up_keystrokes_csi() {
    let got = classify_wheel(3, true, default_modes()).expect("alt screen wheel");
    assert_eq!(got, WheelOutcome::SendBytes(b"\x1b[A\x1b[A\x1b[A".to_vec()));
}

#[test]
fn wheel_alt_screen_emits_arrow_down_keystrokes_csi() {
    let got = classify_wheel(-2, true, default_modes()).expect("alt screen wheel");
    assert_eq!(got, WheelOutcome::SendBytes(b"\x1b[B\x1b[B".to_vec()));
}

#[test]
fn wheel_alt_screen_emits_ss3_when_application_cursor_on() {
    let got = classify_wheel(2, true, app_cursor_modes()).expect("ss3 wheel");
    assert_eq!(got, WheelOutcome::SendBytes(b"\x1bOA\x1bOA".to_vec()));
}

#[test]
fn compose_frame_orders_wheel_bytes_before_quit_keystroke() {
    let q_text = InputEvent::Text("q".to_string());
    let bytes = compose_alt_screen_frame_bytes(3, true, &[&q_text], app_cursor_modes());
    assert_eq!(bytes, b"\x1bOA\x1bOA\x1bOAq".to_vec());
    assert_eq!(*bytes.last().unwrap(), b'q', "q must be the last byte");
    assert!(
        bytes.starts_with(b"\x1bOA\x1bOA\x1bOA"),
        "wheel bytes must precede the keystroke; got {:?}",
        bytes
    );
}

#[test]
fn compose_frame_with_no_wheel_returns_just_key_bytes() {
    let q_text = InputEvent::Text("q".to_string());
    let bytes = compose_alt_screen_frame_bytes(0, true, &[&q_text], default_modes());
    assert_eq!(bytes, b"q".to_vec());
}

#[test]
fn compose_frame_with_no_keys_returns_just_wheel_bytes() {
    let bytes = compose_alt_screen_frame_bytes(2, true, &[], default_modes());
    assert_eq!(bytes, b"\x1b[A\x1b[A".to_vec());
}

#[test]
fn compose_frame_with_main_screen_wheel_emits_no_wheel_bytes() {
    let q_text = InputEvent::Text("q".to_string());
    let bytes = compose_alt_screen_frame_bytes(3, false, &[&q_text], default_modes());
    assert_eq!(bytes, b"q".to_vec());
}

#[test]
fn arrow_keys_use_ss3_form_in_application_cursor_mode() {
    assert_eq!(
        encode_event(&key_event(Key::ArrowUp, no_mods()), app_cursor_modes()).unwrap(),
        b"\x1bOA"
    );
    assert_eq!(
        encode_event(&key_event(Key::ArrowDown, no_mods()), app_cursor_modes()).unwrap(),
        b"\x1bOB"
    );
    assert_eq!(
        encode_event(&key_event(Key::ArrowRight, no_mods()), app_cursor_modes()).unwrap(),
        b"\x1bOC"
    );
    assert_eq!(
        encode_event(&key_event(Key::ArrowLeft, no_mods()), app_cursor_modes()).unwrap(),
        b"\x1bOD"
    );
}

#[test]
fn home_and_end_use_ss3_form_in_application_cursor_mode() {
    assert_eq!(
        encode_event(&key_event(Key::Home, no_mods()), app_cursor_modes()).unwrap(),
        b"\x1bOH"
    );
    assert_eq!(
        encode_event(&key_event(Key::End, no_mods()), app_cursor_modes()).unwrap(),
        b"\x1bOF"
    );
}

#[test]
fn pageup_pagedown_unchanged_by_application_cursor_mode() {
    assert_eq!(
        encode_event(&key_event(Key::PageUp, no_mods()), app_cursor_modes()).unwrap(),
        b"\x1b[5~"
    );
    assert_eq!(
        encode_event(&key_event(Key::PageDown, no_mods()), app_cursor_modes()).unwrap(),
        b"\x1b[6~"
    );
    assert_eq!(
        encode_event(&key_event(Key::Delete, no_mods()), app_cursor_modes()).unwrap(),
        b"\x1b[3~"
    );
}

#[test]
fn enter_and_text_unchanged_by_application_cursor_mode() {
    assert_eq!(
        encode_event(&key_event(Key::Enter, no_mods()), app_cursor_modes()).unwrap(),
        b"\r"
    );
    assert_eq!(encode_event(&text_event("hi"), app_cursor_modes()).unwrap(), b"hi");
}

#[test]
fn pointer_events_return_none() {
    let evt = InputEvent::Other;
    assert!(encode_event(&evt, default_modes()).is_none());
}

fn mods_mac_cmd() -> Modifiers {
    Modifiers { mac_cmd: true, ..Modifiers::default() }
}

fn mods_ctrl_shift() -> Modifiers {
    Modifiers { ctrl: true, shift: true, ..Modifiers::default() }
}

#[test]
fn copy_shortcut_macos_is_cmd_c() {
    assert!(is_copy_shortcut(Key::C, mods_mac_cmd(), true));
}

#[test]
fn copy_shortcut_linux_is_ctrl_shift_c() {
    assert!(is_copy_shortcut(Key::C, mods_ctrl_shift(), false));
}

#[test]
fn copy_shortcut_plain_ctrl_c_is_not_copy_offmac() {
    assert!(!is_copy_shortcut(Key::C, just_ctrl(), false));
}

#[test]
fn copy_shortcut_cmd_c_on_linux_is_not_copy() {
    assert!(!is_copy_shortcut(Key::C, mods_mac_cmd(), false));
}

#[test]
fn copy_shortcut_ctrl_shift_c_on_mac_is_not_copy() {
    assert!(!is_copy_shortcut(Key::C, mods_ctrl_shift(), true));
}

#[test]
fn copy_shortcut_wrong_key_is_never_copy() {
    for key in [Key::A, Key::V, Key::X, Key::Enter] {
        assert!(!is_copy_shortcut(key, mods_mac_cmd(), true));
        assert!(!is_copy_shortcut(key, mods_ctrl_shift(), false));
    }
}

#[test]
fn cmd_plus_arrow_is_unmapped() {
    assert!(encode_key(Key::ArrowUp, mods_mac_cmd(), default_modes()).is_none());
    assert!(encode_key(Key::ArrowDown, mods_mac_cmd(), default_modes()).is_none());
    assert!(encode_key(Key::ArrowLeft, mods_mac_cmd(), default_modes()).is_none());
    assert!(encode_key(Key::ArrowRight, mods_mac_cmd(), default_modes()).is_none());
}

#[test]
fn cmd_plus_special_keys_are_unmapped() {
    for key in [Key::Enter, Key::Home, Key::End, Key::Tab, Key::Escape] {
        assert!(
            encode_key(key, mods_mac_cmd(), default_modes()).is_none(),
            "Cmd+{key:?} should be unmapped, not collapse to plain {key:?}"
        );
    }
}

#[test]
fn shift_plus_arrow_is_unmapped() {
    let shift = Modifiers { shift: true, ..Modifiers::default() };
    assert!(encode_key(Key::ArrowUp, shift, default_modes()).is_none());
    assert!(encode_key(Key::ArrowLeft, shift, default_modes()).is_none());
}

#[test]
fn alt_plus_arrow_is_unmapped() {
    let alt = Modifiers { alt: true, ..Modifiers::default() };
    assert!(encode_key(Key::ArrowUp, alt, default_modes()).is_none());
}

#[test]
fn ctrl_plus_arrow_is_unmapped() {
    let ctrl = Modifiers { ctrl: true, ..Modifiers::default() };
    assert!(encode_key(Key::ArrowUp, ctrl, default_modes()).is_none());
}

#[test]
fn ctrl_plus_letter_still_encodes_with_my_new_gate() {
    assert_eq!(encode_key(Key::C, just_ctrl(), default_modes()).unwrap(), vec![0x03]);
    assert_eq!(encode_key(Key::A, just_ctrl(), default_modes()).unwrap(), vec![0x01]);
}

#[test]
fn ctrl_plus_letter_with_any_other_modifier_is_unmapped() {
    let ctrl_shift = Modifiers { ctrl: true, shift: true, ..Modifiers::default() };
    assert!(encode_key(Key::C, ctrl_shift, default_modes()).is_none());
    let ctrl_alt = Modifiers { ctrl: true, alt: true, ..Modifiers::default() };
    assert!(encode_key(Key::C, ctrl_alt, default_modes()).is_none());
    let ctrl_cmd = Modifiers { ctrl: true, mac_cmd: true, ..Modifiers::default() };
    assert!(encode_key(Key::C, ctrl_cmd, default_modes()).is_none());
}

#[test]
fn plain_keys_still_encode_normally() {
    assert_eq!(encode_key(Key::Enter, no_mods(), default_modes()).unwrap(), b"\r");
    assert_eq!(encode_key(Key::ArrowUp, no_mods(), default_modes()).unwrap(), b"\x1b[A");
    assert_eq!(encode_key(Key::Tab, no_mods(), default_modes()).unwrap(), b"\t");
}
