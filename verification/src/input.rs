//! Encoding the keyboard for the terminal.

use vstd::prelude::*;
use vstd::utf8::encode_utf8;

verus! {

/// A key of the keyboard.
#[derive(Debug, Clone, Copy, PartialEq, Eq, Structural)]
pub enum Key {
    Enter,
    Backspace,
    Tab,
    Escape,
    ArrowUp,
    ArrowDown,
    ArrowRight,
    ArrowLeft,
    Home,
    End,
    PageUp,
    PageDown,
    Delete,
    Insert,
    F1,
    F2,
    F3,
    F4,
    F5,
    F6,
    F7,
    F8,
    F9,
    F10,
    F11,
    F12,
    A,
    B,
    C,
    D,
    E,
    F,
    G,
    H,
    I,
    J,
    K,
    L,
    M,
    N,
    O,
    P,
    Q,
    R,
    S,
    T,
    U,
    V,
    W,
    X,
    Y,
    Z,
    /// Any other key.
    Other,
}

/// The modifier keys held down.
#[derive(Debug, Clone, Copy, PartialEq, Eq, Structural)]
pub struct Modifiers {
    pub alt: bool,
    pub ctrl: bool,
    pub shift: bool,
    pub mac_cmd: bool,
}

impl Default for Modifiers {
    fn default() -> (r: Modifiers)
        ensures
            r == no_modifiers(),
    {
        Modifiers { alt: false, ctrl: false, shift: false, mac_cmd: false }
    }
}

/// No modifier.
pub open spec fn no_modifiers() -> Modifiers {
    Modifiers { alt: false, ctrl: false, shift: false, mac_cmd: false }
}

/// The modes of the terminal that change how input is encoded.
#[derive(Debug, Clone, Copy, PartialEq, Eq, Structural)]
pub struct TerminalModes {
    /// The program asked for the application form of the cursor keys.
    pub application_cursor: bool,
    /// The program asked for pastes between markers.
    pub bracketed_paste: bool,
}

impl Default for TerminalModes {
    fn default() -> (r: TerminalModes)
        ensures
            !r.application_cursor,
            !r.bracketed_paste,
    {
        TerminalModes { application_cursor: false, bracketed_paste: false }
    }
}

/// An input event.
#[derive(Debug, Clone, PartialEq, Eq)]
pub enum InputEvent {
    /// Typed text.
    Text(String),
    /// Pasted text.
    Paste(String),
    /// A key pressed or released.
    Key { key: Key, pressed: bool, modifiers: Modifiers },
    /// Anything else: the pointer, the focus, and so on.
    Other,
}

// ---- keys --------------------------------------------------------------

/// `ESC [ b`.
pub open spec fn csi(b: u8) -> Seq<u8> {
    seq![0x1bu8, 0x5b, b]
}

/// `ESC O b`.
pub open spec fn ss3(b: u8) -> Seq<u8> {
    seq![0x1bu8, 0x4f, b]
}

/// `ESC [ d ~`.
pub open spec fn tilde(d: u8) -> Seq<u8> {
    seq![0x1bu8, 0x5b, d, 0x7e]
}

/// `ESC [ d e ~`.
pub open spec fn tilde2(d: u8, e: u8) -> Seq<u8> {
    seq![0x1bu8, 0x5b, d, e, 0x7e]
}

/// The control byte of a letter key.
pub open spec fn control_byte(key: Key) -> Option<u8> {
    match key {
        Key::A => Some(1),
        Key::B => Some(2),
        Key::C => Some(3),
        Key::D => Some(4),
        Key::E => Some(5),
        Key::F => Some(6),
        Key::G => Some(7),
        Key::H => Some(8),
        Key::I => Some(9),
        Key::J => Some(10),
        Key::K => Some(11),
        Key::L => Some(12),
        Key::M => Some(13),
        Key::N => Some(14),
        Key::O => Some(15),
        Key::P => Some(16),
        Key::Q => Some(17),
        Key::R => Some(18),
        Key::S => Some(19),
        Key::T => Some(20),
        Key::U => Some(21),
        Key::V => Some(22),
        Key::W => Some(23),
        Key::X => Some(24),
        Key::Y => Some(25),
        Key::Z => Some(26),
        _ => None,
    }
}

/// The letter of a cursor key's sequence.
pub open spec fn cursor_letter(key: Key) -> Option<u8> {
    match key {
        Key::ArrowUp => Some(0x41),
        Key::ArrowDown => Some(0x42),
        Key::ArrowRight => Some(0x43),
        Key::ArrowLeft => Some(0x44),
        Key::Home => Some(0x48),
        Key::End => Some(0x46),
        _ => None,
    }
}

/// The bytes of an unmodified key that is no cursor key.
pub open spec fn plain_key_bytes(key: Key) -> Option<Seq<u8>> {
    match key {
        Key::Enter => Some(seq![0x0du8]),
        Key::Backspace => Some(seq![0x7fu8]),
        Key::Tab => Some(seq![0x09u8]),
        Key::Escape => Some(seq![0x1bu8]),
        Key::PageUp => Some(tilde(0x35)),
        Key::PageDown => Some(tilde(0x36)),
        Key::Delete => Some(tilde(0x33)),
        Key::Insert => Some(tilde(0x32)),
        Key::F1 => Some(ss3(0x50)),
        Key::F2 => Some(ss3(0x51)),
        Key::F3 => Some(ss3(0x52)),
        Key::F4 => Some(ss3(0x53)),
        Key::F5 => Some(tilde2(0x31, 0x35)),
        Key::F6 => Some(tilde2(0x31, 0x37)),
        Key::F7 => Some(tilde2(0x31, 0x38)),
        Key::F8 => Some(tilde2(0x31, 0x39)),
        Key::F9 => Some(tilde2(0x32, 0x30)),
        Key::F10 => Some(tilde2(0x32, 0x31)),
        Key::F11 => Some(tilde2(0x32, 0x33)),
        Key::F12 => Some(tilde2(0x32, 0x34)),
        _ => None,
    }
}

/// Is some modifier held?
pub open spec fn modified(m: Modifiers) -> bool {
    m.ctrl || m.alt || m.shift || m.mac_cmd
}

/// Is `Ctrl` held, and nothing else?
pub open spec fn only_ctrl(m: Modifiers) -> bool {
    m.ctrl && !m.alt && !m.shift && !m.mac_cmd
}

/// The bytes of a key. `Ctrl` with a letter gives the control byte; every other
/// combination with a modifier gives nothing.
pub open spec fn key_bytes(key: Key, m: Modifiers, modes: TerminalModes) -> Option<Seq<u8>> {
    if only_ctrl(m) && control_byte(key) is Some {
        Some(seq![control_byte(key).unwrap()])
    } else if modified(m) {
        None
    } else {
        match cursor_letter(key) {
            Some(b) => Some(
                if modes.application_cursor {
                    ss3(b)
                } else {
                    csi(b)
                },
            ),
            None => plain_key_bytes(key),
        }
    }
}

/// The view of optional bytes.
pub open spec fn bytes_view(b: Option<Vec<u8>>) -> Option<Seq<u8>> {
    match b {
        Some(v) => Some(v@),
        None => None,
    }
}

/// The control byte of a letter key.
pub fn ctrl_letter_byte(key: Key) -> (r: Option<u8>)
    ensures
        r == control_byte(key),
{
    match key {
        Key::A => Some(1),
        Key::B => Some(2),
        Key::C => Some(3),
        Key::D => Some(4),
        Key::E => Some(5),
        Key::F => Some(6),
        Key::G => Some(7),
        Key::H => Some(8),
        Key::I => Some(9),
        Key::J => Some(10),
        Key::K => Some(11),
        Key::L => Some(12),
        Key::M => Some(13),
        Key::N => Some(14),
        Key::O => Some(15),
        Key::P => Some(16),
        Key::Q => Some(17),
        Key::R => Some(18),
        Key::S => Some(19),
        Key::T => Some(20),
        Key::U => Some(21),
        Key::V => Some(22),
        Key::W => Some(23),
        Key::X => Some(24),
        Key::Y => Some(25),
        Key::Z => Some(26),
        _ => None,
    }
}

/// One byte.
fn one(a: u8) -> (r: Vec<u8>)
    ensures
        r@ == seq![a],
{
    let mut v: Vec<u8> = Vec::new();
    v.push(a);
    assert(v@ =~= seq![a]);
    v
}

/// `ESC a b`.
fn escape2(a: u8, b: u8) -> (r: Vec<u8>)
    ensures
        r@ == seq![0x1bu8, a, b],
{
    let mut v = one(0x1b);
    v.push(a);
    v.push(b);
    assert(v@ =~= seq![0x1bu8, a, b]);
    v
}

/// `ESC [ d ~`.
fn tilde_key(d: u8) -> (r: Vec<u8>)
    ensures
        r@ == tilde(d),
{
    let mut v = escape2(0x5b, d);
    v.push(0x7e);
    assert(v@ =~= tilde(d));
    v
}

/// `ESC [ d e ~`.
fn tilde_key2(d: u8, e: u8) -> (r: Vec<u8>)
    ensures
        r@ == tilde2(d, e),
{
    let mut v = escape2(0x5b, d);
    v.push(e);
    v.push(0x7e);
    assert(v@ =~= tilde2(d, e));
    v
}

/// Encodes a key that is pressed.
///
/// A modifier is never dropped: a combination without an encoding of its own
/// gives nothing rather than what the bare key would.
pub fn encode_key(key: Key, modifiers: Modifiers, modes: TerminalModes) -> (r: Option<Vec<u8>>)
    ensures
        bytes_view(r) == key_bytes(key, modifiers, modes),
{
    if modifiers.ctrl && !modifiers.alt && !modifiers.shift && !modifiers.mac_cmd {
        if let Some(byte) = ctrl_letter_byte(key) {
            return Some(one(byte));
        }
    }
    if modifiers.ctrl || modifiers.alt || modifiers.shift || modifiers.mac_cmd {
        return None;
    }
    let letter: Option<u8> = match key {
        Key::ArrowUp => Some(0x41),
        Key::ArrowDown => Some(0x42),
        Key::ArrowRight => Some(0x43),
        Key::ArrowLeft => Some(0x44),
        Key::Home => Some(0x48),
        Key::End => Some(0x46),
        _ => None,
    };
    if let Some(b) = letter {
        return if modes.application_cursor {
            Some(escape2(0x4f, b))
        } else {
            Some(escape2(0x5b, b))
        };
    }
    match key {
        Key::Enter => Some(one(0x0d)),
        Key::Backspace => Some(one(0x7f)),
        Key::Tab => Some(one(0x09)),
        Key::Escape => Some(one(0x1b)),
        Key::PageUp => Some(tilde_key(0x35)),
        Key::PageDown => Some(tilde_key(0x36)),
        Key::Delete => Some(tilde_key(0x33)),
        Key::Insert => Some(tilde_key(0x32)),
        Key::F1 => Some(escape2(0x4f, 0x50)),
        Key::F2 => Some(escape2(0x4f, 0x51)),
        Key::F3 => Some(escape2(0x4f, 0x52)),
        Key::F4 => Some(escape2(0x4f, 0x53)),
        Key::F5 => Some(tilde_key2(0x31, 0x35)),
        Key::F6 => Some(tilde_key2(0x31, 0x37)),
        Key::F7 => Some(tilde_key2(0x31, 0x38)),
        Key::F8 => Some(tilde_key2(0x31, 0x39)),
        Key::F9 => Some(tilde_key2(0x32, 0x30)),
        Key::F10 => Some(tilde_key2(0x32, 0x31)),
        Key::F11 => Some(tilde_key2(0x32, 0x33)),
        Key::F12 => Some(tilde_key2(0x32, 0x34)),
        _ => None,
    }
}

// ---- events ------------------------------------------------------------

/// The marker before a paste: `ESC [ 200 ~`.
pub const PASTE_START: [u8; 6] = [0x1b, 0x5b, 0x32, 0x30, 0x30, 0x7e];

/// The marker after a paste: `ESC [ 201 ~`.
pub const PASTE_END: [u8; 6] = [0x1b, 0x5b, 0x32, 0x30, 0x31, 0x7e];

/// The bytes of an event. Text goes out as UTF-8, a paste as UTF-8 between
/// markers where the program asked for them, and a key that is pressed as
/// [`key_bytes`] says; anything else, and an empty text, gives nothing.
pub open spec fn event_bytes(event: InputEvent, modes: TerminalModes) -> Option<Seq<u8>> {
    match event {
        InputEvent::Text(s) => if s@.len() == 0 {
            None
        } else {
            Some(encode_utf8(s@))
        },
        InputEvent::Paste(s) => if s@.len() == 0 {
            None
        } else if modes.bracketed_paste {
            Some(PASTE_START@ + encode_utf8(s@) + PASTE_END@)
        } else {
            Some(encode_utf8(s@))
        },
        InputEvent::Key { key, pressed, modifiers } => if pressed {
            key_bytes(key, modifiers, modes)
        } else {
            None
        },
        InputEvent::Other => None,
    }
}

/// Appends `bytes` to `out`.
fn append_bytes(out: &mut Vec<u8>, bytes: &[u8])
    ensures
        final(out)@ == old(out)@ + bytes@,
{
    let mut i: usize = 0;
    while i < bytes.len()
        invariant
            i <= bytes@.len(),
            out@ == old(out)@ + bytes@.take(i as int),
        decreases bytes@.len() - i,
    {
        out.push(bytes[i]);
        i += 1;
        assert(bytes@.take(i as int) =~= bytes@.take(i - 1).push(bytes@[i - 1]));
    }
    assert(bytes@.take(i as int) =~= bytes@);
}

/// Encodes an event; `None` where it gives no bytes.
pub fn encode_event(event: &InputEvent, modes: TerminalModes) -> (r: Option<Vec<u8>>)
    ensures
        bytes_view(r) == event_bytes(*event, modes),
{
    match event {
        InputEvent::Text(s) => {
            if s.as_str().is_empty() {
                None
            } else {
                Some(vstd::slice::slice_to_vec(s.as_str().as_bytes()))
            }
        },
        InputEvent::Paste(s) => {
            if s.as_str().is_empty() {
                return None;
            }
            let payload = s.as_str().as_bytes();
            if modes.bracketed_paste {
                let mut out: Vec<u8> = Vec::new();
                append_bytes(&mut out, &PASTE_START);
                append_bytes(&mut out, payload);
                append_bytes(&mut out, &PASTE_END);
                assert(out@ =~= PASTE_START@ + encode_utf8(s@) + PASTE_END@);
                Some(out)
            } else {
                Some(vstd::slice::slice_to_vec(payload))
            }
        },
        InputEvent::Key { key, pressed, modifiers } => {
            if *pressed {
                encode_key(*key, *modifiers, modes)
            } else {
                None
            }
        },
        InputEvent::Other => None,
    }
}

// ---- the wheel ---------------------------------------------------------

/// What a turn of the wheel does.
#[derive(Debug, Clone, PartialEq, Eq)]
pub enum WheelOutcome {
    /// Move the view by so many lines; up is positive.
    ScrollDisplay(i32),
    /// Write these bytes to the program.
    SendBytes(Vec<u8>),
}

/// What a turn of the wheel does, as mathematics.
pub enum WheelView {
    ScrollDisplay(i32),
    SendBytes(Seq<u8>),
}

/// The view of an optional outcome.
pub open spec fn wheel_view(w: Option<WheelOutcome>) -> Option<WheelView> {
    match w {
        Some(WheelOutcome::ScrollDisplay(n)) => Some(WheelView::ScrollDisplay(n)),
        Some(WheelOutcome::SendBytes(b)) => Some(WheelView::SendBytes(b@)),
        None => None,
    }
}

/// `n` times the bytes `b`.
pub open spec fn repeated(b: Seq<u8>, n: nat) -> Seq<u8>
    decreases n,
{
    if n == 0 {
        Seq::empty()
    } else {
        repeated(b, (n - 1) as nat) + b
    }
}

/// The bytes of a turn of the wheel by `lines` lines on the alternate screen:
/// as many presses of the arrow up (or, for a negative number, down).
pub open spec fn wheel_bytes(lines: int, modes: TerminalModes) -> Seq<u8> {
    if lines > 0 {
        repeated(key_bytes(Key::ArrowUp, no_modifiers(), modes).unwrap(), lines as nat)
    } else {
        repeated(key_bytes(Key::ArrowDown, no_modifiers(), modes).unwrap(), (-lines) as nat)
    }
}

/// What a turn of the wheel by `lines` lines does: on the main screen it moves
/// the view, on the alternate screen it is sent as arrow keys.
pub open spec fn wheel_effect(lines: i32, alt_screen: bool, modes: TerminalModes) -> Option<
    WheelView,
> {
    if lines == 0 {
        None
    } else if !alt_screen {
        Some(WheelView::ScrollDisplay(lines))
    } else {
        Some(WheelView::SendBytes(wheel_bytes(lines as int, modes)))
    }
}

/// Decides what a turn of the wheel does; `None` for no turn.
pub fn classify_wheel(lines: i32, alt_screen: bool, modes: TerminalModes) -> (r: Option<
    WheelOutcome,
>)
    requires
        alt_screen ==> lines > i32::MIN,
    ensures
        wheel_view(r) == wheel_effect(lines, alt_screen, modes),
{
    if lines == 0 {
        return None;
    }
    if !alt_screen {
        return Some(WheelOutcome::ScrollDisplay(lines));
    }
    let up = lines > 0;
    let count: i32 = if up {
        lines
    } else {
        -lines
    };
    let key = if up {
        Key::ArrowUp
    } else {
        Key::ArrowDown
    };
    let keystroke = match encode_key(key, Modifiers::default(), modes) {
        Some(k) => k,
        None => return None,
    };
    let mut payload: Vec<u8> = Vec::new();
    let mut i: i32 = 0;
    while i < count
        invariant
            0 <= i <= count,
            payload@ == repeated(keystroke@, i as nat),
        decreases count - i,
    {
        append_bytes(&mut payload, keystroke.as_slice());
        i += 1;
    }
    Some(WheelOutcome::SendBytes(payload))
}

/// The bytes of events, one after the other.
pub open spec fn events_bytes(events: Seq<&InputEvent>, modes: TerminalModes) -> Seq<u8>
    decreases events.len(),
{
    if events.len() == 0 {
        Seq::empty()
    } else {
        events_bytes(events.drop_last(), modes) + (match event_bytes(*events.last(), modes) {
            Some(b) => b,
            None => Seq::empty(),
        })
    }
}

/// The bytes of a turn of the wheel, if it is sent at all.
pub open spec fn sent_wheel_bytes(lines: i32, alt_screen: bool, modes: TerminalModes) -> Seq<u8> {
    if lines != 0 && alt_screen {
        wheel_bytes(lines as int, modes)
    } else {
        Seq::empty()
    }
}

/// The bytes of a frame of input: those of the wheel, then those of the keys.
/// A program that a key makes quit has then read the wheel's bytes, so that
/// they do not reach the shell.
pub fn compose_alt_screen_frame_bytes(
    wheel_lines: i32,
    wheel_alt_screen: bool,
    key_events: &[&InputEvent],
    modes: TerminalModes,
) -> (out: Vec<u8>)
    requires
        wheel_alt_screen ==> wheel_lines > i32::MIN,
    ensures
        out@ == sent_wheel_bytes(wheel_lines, wheel_alt_screen, modes) + events_bytes(
            key_events@,
            modes,
        ),
{
    let mut out: Vec<u8> = Vec::new();
    if let Some(WheelOutcome::SendBytes(bytes)) = classify_wheel(
        wheel_lines,
        wheel_alt_screen,
        modes,
    ) {
        append_bytes(&mut out, bytes.as_slice());
    }
    let ghost wheel = out@;
    assert(wheel =~= sent_wheel_bytes(wheel_lines, wheel_alt_screen, modes));
    let mut i: usize = 0;
    assert(out@ =~= wheel + events_bytes(key_events@.take(0), modes));
    while i < key_events.len()
        invariant
            i <= key_events@.len(),
            out@ == wheel + events_bytes(key_events@.take(i as int), modes),
        decreases key_events@.len() - i,
    {
        let ghost before = out@;
        assert(key_events@.take(i + 1).drop_last() =~= key_events@.take(i as int));
        if let Some(bytes) = encode_event(key_events[i], modes) {
            append_bytes(&mut out, bytes.as_slice());
        }
        assert(out@ =~= wheel + events_bytes(key_events@.take(i + 1), modes));
        i += 1;
    }
    assert(key_events@.take(i as int) =~= key_events@);
    out
}

/// Is this the shortcut that copies the selection: `Cmd+C` on macOS,
/// `Ctrl+Shift+C` elsewhere?
pub fn is_copy_shortcut(key: Key, mods: Modifiers, is_macos: bool) -> (r: bool)
    ensures
        r == copies(key, mods, is_macos),
{
    if key != Key::C {
        return false;
    }
    if is_macos {
        mods.mac_cmd && !mods.ctrl && !mods.alt && !mods.shift
    } else {
        mods.ctrl && mods.shift && !mods.alt && !mods.mac_cmd
    }
}

/// Is this the shortcut that copies the selection?
pub open spec fn copies(key: Key, m: Modifiers, is_macos: bool) -> bool {
    key == Key::C && !m.alt && (if is_macos {
        m.mac_cmd && !m.ctrl && !m.shift
    } else {
        m.ctrl && m.shift && !m.mac_cmd
    })
}

// ---- laws --------------------------------------------------------------

/// A modifier is never dropped: with one held, only `Ctrl` and a letter give
/// bytes.
pub proof fn law_modifiers_are_never_dropped(key: Key, m: Modifiers, modes: TerminalModes)
    requires
        modified(m),
        !(only_ctrl(m) && control_byte(key) is Some),
    ensures
        key_bytes(key, m, modes) is None,
{
}

/// The copy shortcut is never a key that the terminal is sent: `Ctrl+C` stays
/// the interrupt.
pub proof fn law_copy_is_not_sent(key: Key, m: Modifiers, is_macos: bool, modes: TerminalModes)
    requires
        copies(key, m, is_macos),
    ensures
        key_bytes(key, m, modes) is None,
{
}

/// The cursor mode changes the cursor keys alone.
pub proof fn law_cursor_mode_changes_cursor_keys_only(
    key: Key,
    m: Modifiers,
    a: TerminalModes,
    b: TerminalModes,
)
    requires
        cursor_letter(key) is None,
    ensures
        key_bytes(key, m, a) == key_bytes(key, m, b),
{
}

/// The bytes of the first events come first, whatever follows: in a frame, keys
/// keep their order.
pub proof fn law_events_keep_their_order(
    a: Seq<&InputEvent>,
    b: Seq<&InputEvent>,
    modes: TerminalModes,
)
    ensures
        events_bytes(a + b, modes) == events_bytes(a, modes) + events_bytes(b, modes),
    decreases b.len(),
{
    if b.len() == 0 {
        assert(a + b =~= a);
        assert(events_bytes(a, modes) + events_bytes(b, modes) =~= events_bytes(a, modes));
    } else {
        law_events_keep_their_order(a, b.drop_last(), modes);
        assert((a + b).drop_last() =~= a + b.drop_last());
        assert((a + b).last() == b.last());
        assert(events_bytes(a + b, modes) =~= events_bytes(a, modes) + events_bytes(b, modes));
    }
}

/// The letter on the cap of a key.
pub open spec fn cap(key: Key) -> Option<char> {
    match key {
        Key::A => Some('A'),
        Key::B => Some('B'),
        Key::C => Some('C'),
        Key::D => Some('D'),
        Key::E => Some('E'),
        Key::F => Some('F'),
        Key::G => Some('G'),
        Key::H => Some('H'),
        Key::I => Some('I'),
        Key::J => Some('J'),
        Key::K => Some('K'),
        Key::L => Some('L'),
        Key::M => Some('M'),
        Key::N => Some('N'),
        Key::O => Some('O'),
        Key::P => Some('P'),
        Key::Q => Some('Q'),
        Key::R => Some('R'),
        Key::S => Some('S'),
        Key::T => Some('T'),
        Key::U => Some('U'),
        Key::V => Some('V'),
        Key::W => Some('W'),
        Key::X => Some('X'),
        Key::Y => Some('Y'),
        Key::Z => Some('Z'),
        _ => None,
    }
}

/// `Ctrl` with a letter, and no other modifier, gives one byte in every mode: the
/// code of the letter less `0x40`. No other key gives anything with `Ctrl`.
pub proof fn law_ctrl_takes_0x40_off_the_letter(key: Key, m: Modifiers, modes: TerminalModes)
    requires
        m.ctrl,
        !m.alt,
        !m.shift,
        !m.mac_cmd,
    ensures
        match (cap(key), key_bytes(key, m, modes)) {
            (Some(c), Some(b)) => b.len() == 1 && b[0] + 0x40 == c as u32 && 1 <= b[0] <= 26,
            (None, None) => true,
            _ => false,
        },
{
}

/// Two letters never give the same byte with `Ctrl`.
pub proof fn law_ctrl_tells_letters_apart(
    a: Key,
    b: Key,
    m: Modifiers,
    modes: TerminalModes,
    other: TerminalModes,
)
    requires
        m.ctrl,
        key_bytes(a, m, modes) is Some,
        key_bytes(a, m, modes) == key_bytes(b, m, other),
    ensures
        a == b,
{
    assert(key_bytes(a, m, modes).unwrap()[0] == control_byte(a).unwrap());
    assert(key_bytes(b, m, other).unwrap()[0] == control_byte(b).unwrap());
}

/// The number that stands between `ESC [` and `~`.
pub open spec fn sequence_number(b: Seq<u8>) -> int {
    if b.len() == 4 {
        b[2] - 0x30
    } else {
        10 * (b[2] - 0x30) + (b[3] - 0x30)
    }
}

/// The key that a program takes bytes for.
pub open spec fn read_key(b: Seq<u8>) -> Option<Key> {
    if b == seq![0x0du8] {
        Some(Key::Enter)
    } else if b == seq![0x7fu8] {
        Some(Key::Backspace)
    } else if b == seq![0x09u8] {
        Some(Key::Tab)
    } else if b == seq![0x1bu8] {
        Some(Key::Escape)
    } else if b.len() == 3 && b[0] == 0x1b && (b[1] == 0x5b || b[1] == 0x4f) {
        let c = b[2] as char;
        if c == 'A' {
            Some(Key::ArrowUp)
        } else if c == 'B' {
            Some(Key::ArrowDown)
        } else if c == 'C' {
            Some(Key::ArrowRight)
        } else if c == 'D' {
            Some(Key::ArrowLeft)
        } else if c == 'H' {
            Some(Key::Home)
        } else if c == 'F' {
            Some(Key::End)
        } else if b[1] == 0x4f && c == 'P' {
            Some(Key::F1)
        } else if b[1] == 0x4f && c == 'Q' {
            Some(Key::F2)
        } else if b[1] == 0x4f && c == 'R' {
            Some(Key::F3)
        } else if b[1] == 0x4f && c == 'S' {
            Some(Key::F4)
        } else {
            None
        }
    } else if (b.len() == 4 || b.len() == 5) && b[0] == 0x1b && b[1] == 0x5b && b.last() == 0x7e {
        let n = sequence_number(b);
        if n == 2 {
            Some(Key::Insert)
        } else if n == 3 {
            Some(Key::Delete)
        } else if n == 5 {
            Some(Key::PageUp)
        } else if n == 6 {
            Some(Key::PageDown)
        } else if n == 15 {
            Some(Key::F5)
        } else if n == 17 {
            Some(Key::F6)
        } else if n == 18 {
            Some(Key::F7)
        } else if n == 19 {
            Some(Key::F8)
        } else if n == 20 {
            Some(Key::F9)
        } else if n == 21 {
            Some(Key::F10)
        } else if n == 23 {
            Some(Key::F11)
        } else if n == 24 {
            Some(Key::F12)
        } else {
            None
        }
    } else {
        None
    }
}

/// A program takes the bytes of an unmodified key for that key, in every mode; keys
/// that give no bytes are the letters, which come as text, and those not named.
pub proof fn law_keys_are_read_back(key: Key, m: Modifiers, modes: TerminalModes)
    requires
        !m.ctrl,
        !m.alt,
        !m.shift,
        !m.mac_cmd,
    ensures
        match key_bytes(key, m, modes) {
            Some(b) => read_key(b) == Some(key) && cap(key) is None,
            None => cap(key) is Some || key == Key::Other,
        },
{
    if let Some(b) = key_bytes(key, m, modes) {
        assert(b.len() == 1 ==> (b == seq![0x0du8] <==> b[0] == 0x0d)) by {
            if b.len() == 1 && b[0] == 0x0d {
                assert(b =~= seq![0x0du8]);
            }
        }
        assert(b.len() == 1 ==> (b == seq![0x7fu8] <==> b[0] == 0x7f)) by {
            if b.len() == 1 && b[0] == 0x7f {
                assert(b =~= seq![0x7fu8]);
            }
        }
        assert(b.len() == 1 ==> (b == seq![0x09u8] <==> b[0] == 0x09)) by {
            if b.len() == 1 && b[0] == 0x09 {
                assert(b =~= seq![0x09u8]);
            }
        }
        assert(b.len() == 1 ==> (b == seq![0x1bu8] <==> b[0] == 0x1b)) by {
            if b.len() == 1 && b[0] == 0x1b {
                assert(b =~= seq![0x1bu8]);
            }
        }
    }
}

/// The arrows, `Home` and `End` have `O` behind the escape where the program asked for
/// the application form, and `[` where it did not.
pub proof fn law_cursor_keys_follow_the_mode(key: Key, m: Modifiers, modes: TerminalModes)
    requires
        m == no_modifiers(),
        key == Key::ArrowUp || key == Key::ArrowDown || key == Key::ArrowLeft || key
            == Key::ArrowRight || key == Key::Home || key == Key::End,
    ensures
        ({
            let b = key_bytes(key, m, modes).unwrap();
            b.len() == 3 && b[0] == 0x1b && b[1] == (if modes.application_cursor {
                0x4fu8
            } else {
                0x5bu8
            })
        }),
{
}

/// Typed text arrives as typed: the program decodes its bytes to the same text. A
/// paste does too, with nothing around it or, where the program asked for them,
/// `ESC [ 200 ~` before it and `ESC [ 201 ~` behind it.
pub proof fn law_text_arrives_as_typed(text: String, modes: TerminalModes)
    requires
        text@.len() > 0,
    ensures
        event_bytes(InputEvent::Text(text), modes) == Some(encode_utf8(text@)),
        !modes.bracketed_paste ==> event_bytes(InputEvent::Paste(text), modes) == Some(
            encode_utf8(text@),
        ),
        modes.bracketed_paste ==> ({
            let b = event_bytes(InputEvent::Paste(text), modes).unwrap();
            let n = b.len() - 6;
            &&& event_bytes(InputEvent::Paste(text), modes) is Some
            &&& n >= 6
            &&& b.take(6) == seq![0x1bu8, 0x5b, 0x32, 0x30, 0x30, 0x7e]
            &&& b.subrange(6, n) == encode_utf8(text@)
            &&& b.skip(n) == seq![0x1bu8, 0x5b, 0x32, 0x30, 0x31, 0x7e]
        }),
{
    if modes.bracketed_paste {
        let b = event_bytes(InputEvent::Paste(text), modes).unwrap();
        let n = b.len() - 6;
        assert(b.take(6) =~= seq![0x1bu8, 0x5b, 0x32, 0x30, 0x30, 0x7e]);
        assert(b.subrange(6, n) =~= encode_utf8(text@));
        assert(b.skip(n) =~= seq![0x1bu8, 0x5b, 0x32, 0x30, 0x31, 0x7e]);
    }
}

/// A key that is let go, an empty text and what is no input send nothing; a key that
/// is pressed sends its bytes.
pub proof fn law_only_input_is_sent(
    key: Key,
    modifiers: Modifiers,
    empty: String,
    modes: TerminalModes,
)
    requires
        empty@.len() == 0,
    ensures
        event_bytes(InputEvent::Key { key, pressed: false, modifiers }, modes) is None,
        event_bytes(InputEvent::Key { key, pressed: true, modifiers }, modes) == key_bytes(
            key,
            modifiers,
            modes,
        ),
        event_bytes(InputEvent::Text(empty), modes) is None,
        event_bytes(InputEvent::Paste(empty), modes) is None,
        event_bytes(InputEvent::Other, modes) is None,
{
}

/// Where the `k`-th of `n` copies stands.
proof fn lemma_repeated(b: Seq<u8>, n: nat, k: int)
    requires
        0 <= k < n,
    ensures
        repeated(b, n).len() == n * b.len(),
        0 <= k * b.len() && (k + 1) * b.len() <= n * b.len(),
        repeated(b, n).subrange(k * b.len(), (k + 1) * b.len()) == b,
    decreases n,
{
    let before = repeated(b, (n - 1) as nat);
    lemma_repeated_len(b, (n - 1) as nat);
    assert((n - 1) * b.len() + b.len() == n * b.len()) by (nonlinear_arith);
    assert(0 <= k * b.len() && (k + 1) * b.len() <= n * b.len() && k * b.len() + b.len() == (k + 1)
        * b.len()) by (nonlinear_arith)
        requires
            0 <= k < n,
    ;
    if k < n - 1 {
        lemma_repeated(b, (n - 1) as nat, k);
        assert(repeated(b, n).subrange(k * b.len(), (k + 1) * b.len()) =~= before.subrange(
            k * b.len(),
            (k + 1) * b.len(),
        ));
    } else {
        assert(repeated(b, n).subrange(k * b.len(), (k + 1) * b.len()) =~= b);
    }
}

/// The length of `n` copies.
proof fn lemma_repeated_len(b: Seq<u8>, n: nat)
    ensures
        repeated(b, n).len() == n * b.len(),
    decreases n,
{
    if n > 0 {
        lemma_repeated_len(b, (n - 1) as nat);
        assert((n - 1) * b.len() + b.len() == n * b.len()) by (nonlinear_arith);
    } else {
        assert(0 * b.len() == 0);
    }
}

/// On the main screen the view moves by the lines turned. On the alternate screen the
/// program gets one press of an arrow for each line turned, up for a positive number
/// and down for a negative one, in the form that it asked for. No turn does nothing.
pub proof fn law_wheel_moves_by_its_lines(lines: i32, alt_screen: bool, modes: TerminalModes, k: int)
    ensures
        match wheel_effect(lines, alt_screen, modes) {
            None => lines == 0,
            Some(WheelView::ScrollDisplay(n)) => !alt_screen && n == lines && lines != 0,
            Some(WheelView::SendBytes(b)) => {
                let count = if lines > 0 {
                    lines as int
                } else {
                    -lines
                };
                &&& alt_screen && lines != 0
                &&& b.len() == 3 * count
                &&& 0 <= k < count ==> b.subrange(3 * k, 3 * k + 3) == seq![
                    0x1bu8,
                    if modes.application_cursor {
                        0x4fu8
                    } else {
                        0x5bu8
                    },
                    if lines > 0 {
                        0x41u8
                    } else {
                        0x42u8
                    },
                ]
            },
        },
{
    if alt_screen && lines != 0 {
        let key = if lines > 0 {
            Key::ArrowUp
        } else {
            Key::ArrowDown
        };
        let count = if lines > 0 {
            lines as int
        } else {
            -lines
        };
        let b = key_bytes(key, no_modifiers(), modes).unwrap();
        lemma_repeated_len(b, count as nat);
        assert(b.len() == 3);
        assert(count * 3 == 3 * count);
        if 0 <= k < count {
            lemma_repeated(b, count as nat, k);
            assert(k * b.len() == 3 * k && (k + 1) * b.len() == 3 * k + 3) by (nonlinear_arith)
                requires
                    b.len() == 3,
            ;
            assert(b =~= seq![
                0x1bu8,
                if modes.application_cursor {
                    0x4fu8
                } else {
                    0x5bu8
                },
                if lines > 0 {
                    0x41u8
                } else {
                    0x42u8
                },
            ]);
        }
    }
}

/// A frame sends the bytes of the wheel that [`wheel_effect`] gives, and none for a
/// wheel that moves the view.
pub proof fn law_frame_sends_the_wheel(lines: i32, alt_screen: bool, modes: TerminalModes)
    ensures
        match wheel_effect(lines, alt_screen, modes) {
            Some(WheelView::SendBytes(b)) => sent_wheel_bytes(lines, alt_screen, modes) == b,
            _ => sent_wheel_bytes(lines, alt_screen, modes).len() == 0,
        },
{
}

/// A frame sends each event's bytes, and nothing for an event that has none.
pub proof fn law_frame_sends_each_event(event: &InputEvent, modes: TerminalModes)
    ensures
        match event_bytes(*event, modes) {
            Some(b) => events_bytes(seq![event], modes) == b,
            None => events_bytes(seq![event], modes).len() == 0,
        },
        events_bytes(Seq::<&InputEvent>::empty(), modes).len() == 0,
{
    let one = seq![event];
    assert(one.drop_last() =~= Seq::<&InputEvent>::empty());
    assert(one.last() == event);
    let none = events_bytes(Seq::<&InputEvent>::empty(), modes);
    assert(none.len() == 0);
    assert(events_bytes(one, modes) == none + (match event_bytes(*event, modes) {
        Some(b) => b,
        None => Seq::empty(),
    }));
    if let Some(b) = event_bytes(*event, modes) {
        assert(none + b =~= b);
    }
}

/// The copy shortcut is `Cmd+C` alone on macOS and `Ctrl+Shift+C` alone elsewhere: of
/// all keys and modifiers, one combination on each.
pub proof fn law_one_copy_shortcut(key: Key, m: Modifiers)
    ensures
        copies(key, m, true) <==> key == Key::C && m == (Modifiers {
            alt: false,
            ctrl: false,
            shift: false,
            mac_cmd: true,
        }),
        copies(key, m, false) <==> key == Key::C && m == (Modifiers {
            alt: false,
            ctrl: true,
            shift: true,
            mac_cmd: false,
        }),
{
}

/// What [`encode_key`] gives: for `Ctrl` and a letter its code less `0x40`, for a key
/// alone what a program reads back as that key, and nothing else.
pub proof fn law_keys_as_encoded(key: Key, m: Modifiers, modes: TerminalModes, r: Option<Vec<u8>>)
    requires
        call_ensures(encode_key, (key, m, modes), r),
    ensures
        m.ctrl && !m.alt && !m.shift && !m.mac_cmd ==> (match cap(key) {
            Some(c) => r matches Some(b) && b@.len() == 1 && b@[0] + 0x40 == c as u32,
            None => r is None,
        }),
        m.alt || m.shift || m.mac_cmd ==> r is None,
        !m.ctrl && !m.alt && !m.shift && !m.mac_cmd ==> (match r {
            Some(b) => read_key(b@) == Some(key),
            None => cap(key) is Some || key == Key::Other,
        }),
{
    if m.ctrl && !m.alt && !m.shift && !m.mac_cmd {
        law_ctrl_takes_0x40_off_the_letter(key, m, modes);
    } else if !m.ctrl && !m.alt && !m.shift && !m.mac_cmd {
        law_keys_are_read_back(key, m, modes);
    }
}

/// What [`encode_event`] gives for typed text, and for a paste in a program that asked
/// for no markers: the text in UTF-8.
pub proof fn law_text_as_encoded(text: String, modes: TerminalModes, r: Option<Vec<u8>>)
    requires
        text@.len() > 0,
        call_ensures(encode_event, (&InputEvent::Text(text), modes), r) || (
        !modes.bracketed_paste && call_ensures(
            encode_event,
            (&InputEvent::Paste(text), modes),
            r,
        )),
    ensures
        r matches Some(b) && b@ == encode_utf8(text@),
{
}

/// What [`classify_wheel`] decides: on the main screen to move the view by the lines
/// turned, on the alternate one to send three bytes for each.
pub proof fn law_wheel_as_decided(
    lines: i32,
    alt_screen: bool,
    modes: TerminalModes,
    r: Option<WheelOutcome>,
)
    requires
        call_ensures(classify_wheel, (lines, alt_screen, modes), r),
    ensures
        lines == 0 ==> r is None,
        lines != 0 && !alt_screen ==> r == Some(WheelOutcome::ScrollDisplay(lines)),
        lines != 0 && alt_screen ==> (r matches Some(WheelOutcome::SendBytes(b)) && b@.len() == 3 * (
        if lines > 0 {
            lines as int
        } else {
            -lines
        })),
{
    law_wheel_moves_by_its_lines(lines, alt_screen, modes, 0);
}

/// A frame of input starts with the bytes of the wheel, so that a key that ends the
/// program comes behind them.
pub proof fn law_wheel_comes_before_the_keys(
    lines: i32,
    alt_screen: bool,
    keys: &[&InputEvent],
    modes: TerminalModes,
    out: Vec<u8>,
    r: Option<WheelOutcome>,
)
    requires
        call_ensures(compose_alt_screen_frame_bytes, (lines, alt_screen, keys, modes), out),
        call_ensures(classify_wheel, (lines, alt_screen, modes), r),
    ensures
        match r {
            Some(WheelOutcome::SendBytes(b)) => out@ == b@ + events_bytes(keys@, modes),
            _ => out@ == events_bytes(keys@, modes),
        },
{
    if !(r matches Some(WheelOutcome::SendBytes(_))) {
        assert(Seq::<u8>::empty() + events_bytes(keys@, modes) =~= events_bytes(keys@, modes));
    }
}

} // verus!
