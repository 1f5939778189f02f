//! The byte-stream sniffer: the working directory and the lifecycle messages
//! that a shell announces in its output.
//!
//! Two kinds of control string count: operating system command 7, which
//! reports the working directory, and the device control strings of the
//! integration script. Every other one, the prompt marks of foreign
//! integration scripts among them, is ignored.

use vstd::prelude::*;
use vstd::utf8::{
    decode_utf8, encode_scalar, encode_utf8, encode_utf8_decode_utf8, encode_utf8_valid_utf8,
    valid_utf8,
};

use crate::markers::{dcs_event, parse_dcs_body, EventView, LifecycleEvent};
use crate::text::{
    chars_of, chars_start_with, find_char, first_index, lemma_first_index, lossy_chars, lossy_text,
    starts_with, string_between, utf8_text,
};
use crate::vt::{params_view, vt_events_view, vt_reports, VtEvent, VtEventView, VtParser};

verus! {

// ---- operating system command 7 ----------------------------------------

/// The value of a hexadecimal digit.
pub open spec fn hex_digit(c: u8) -> Option<u8> {
    if 0x30 <= c <= 0x39 {
        Some((c - 0x30) as u8)
    } else if 0x61 <= c <= 0x66 {
        Some((c - 0x61 + 10) as u8)
    } else if 0x41 <= c <= 0x46 {
        Some((c - 0x41 + 10) as u8)
    } else {
        None
    }
}

/// The value of a hexadecimal digit.
pub fn hex_value(c: u8) -> (r: Option<u8>)
    ensures
        r == hex_digit(c),
{
    if 0x30 <= c && c <= 0x39 {
        Some(c - 0x30)
    } else if 0x61 <= c && c <= 0x66 {
        Some(c - 0x61 + 10)
    } else if 0x41 <= c && c <= 0x46 {
        Some(c - 0x41 + 10)
    } else {
        None
    }
}

/// Does a percent sign with two hexadecimal digits stand at the front?
pub open spec fn escape_first(b: Seq<u8>) -> bool {
    b.len() >= 3 && b[0] == 0x25 && hex_digit(b[1]) is Some && hex_digit(b[2]) is Some
}

/// The bytes with each `%XX` replaced by the byte it writes; every other byte
/// stands for itself.
pub open spec fn unescaped(b: Seq<u8>) -> Seq<u8>
    decreases b.len(),
{
    if b.len() == 0 {
        Seq::empty()
    } else if escape_first(b) {
        seq![(16 * hex_digit(b[1]).unwrap() + hex_digit(b[2]).unwrap()) as u8] + unescaped(
            b.skip(3),
        )
    } else {
        seq![b[0]] + unescaped(b.skip(1))
    }
}

/// The bytes with each `%XX` replaced by the byte it writes.
fn percent_decode(bytes: &[u8]) -> (out: Vec<u8>)
    ensures
        out@ == unescaped(bytes@),
{
    let mut out: Vec<u8> = Vec::new();
    let mut i: usize = 0;
    assert(bytes@.skip(0) =~= bytes@);
    assert(out@ + unescaped(bytes@.skip(0)) =~= unescaped(bytes@));
    while i < bytes.len()
        invariant
            i <= bytes@.len(),
            out@ + unescaped(bytes@.skip(i as int)) == unescaped(bytes@),
        decreases bytes@.len() - i,
    {
        let ghost rest = bytes@.skip(i as int);
        let ghost before = out@;
        if bytes[i] == 0x25 && bytes.len() - i > 2 {
            assert(rest[1] == bytes@[i + 1] && rest[2] == bytes@[i + 2]);
            if let (Some(h), Some(l)) = (hex_value(bytes[i + 1]), hex_value(bytes[i + 2])) {
                let b: u8 = h * 16 + l;
                out.push(b);
                assert(rest.skip(3) =~= bytes@.skip(i + 3));
                assert(unescaped(rest) == seq![b] + unescaped(rest.skip(3)));
                assert(out@ + unescaped(rest.skip(3)) =~= before + (seq![b] + unescaped(
                    rest.skip(3),
                )));
                i += 3;
                continue;
            }
        }
        out.push(bytes[i]);
        assert(!escape_first(rest));
        assert(rest.skip(1) =~= bytes@.skip(i + 1));
        assert(out@ + unescaped(rest.skip(1)) =~= before + (seq![rest[0]] + unescaped(
            rest.skip(1),
        )));
        i += 1;
    }
    assert(bytes@.skip(i as int) =~= Seq::empty());
    assert(out@ + unescaped(bytes@.skip(i as int)) =~= out@);
    out
}

/// The text with each `%XX` replaced by the byte it writes, the bytes that
/// result being read as UTF-8.
pub open spec fn percent_decoded(s: Seq<char>) -> Seq<char> {
    lossy_chars(unescaped(encode_utf8(s)))
}

/// The bytes of one character: an ASCII character is its own byte, and no other
/// character has an ASCII byte.
proof fn lemma_scalar_bytes(c: char)
    ensures
        (c as u32) < 0x80 ==> encode_scalar(c as u32) == seq![c as u8],
        (c as u32) >= 0x80 ==> forall|i: int|
            0 <= i < encode_scalar(c as u32).len() ==> (#[trigger] encode_scalar(c as u32)[i])
                >= 0x80,
        encode_scalar(c as u32).len() > 0,
{
    let u = c as u32;
    assert(u < 0x80 ==> (u & 0x7f) as u8 == u as u8) by (bit_vector);
    assert(forall|b: u8| #![trigger 0xC0u8 | b] (0xC0u8 | b) >= 0x80) by (bit_vector);
    assert(forall|b: u8| #![trigger 0xE0u8 | b] (0xE0u8 | b) >= 0x80) by (bit_vector);
    assert(forall|b: u8| #![trigger 0xF0u8 | b] (0xF0u8 | b) >= 0x80) by (bit_vector);
    assert(forall|b: u8| #![trigger 0x80u8 | b] (0x80u8 | b) >= 0x80) by (bit_vector);
}

/// Text without a percent sign has no byte that is one.
proof fn lemma_no_percent_sign(s: Seq<char>)
    requires
        !s.contains('%'),
    ensures
        forall|i: int| 0 <= i < encode_utf8(s).len() ==> #[trigger] encode_utf8(s)[i] != 0x25,
    decreases s.len(),
{
    if s.len() > 0 {
        let rest = s.drop_first();
        let head = encode_scalar(s[0] as u32);
        assert(s[0] != '%');
        assert forall|i: int| 0 <= i < rest.len() implies rest[i] != '%' by {
            assert(s.contains(s[i + 1]));
        }
        lemma_no_percent_sign(rest);
        lemma_scalar_bytes(s[0]);
        assert forall|i: int| 0 <= i < encode_utf8(s).len() implies #[trigger] encode_utf8(s)[i]
            != 0x25 by {
            if i < head.len() {
                assert(encode_utf8(s)[i] == head[i]);
                let u = s[0] as u32;
                assert(u < 0x80 && u as u8 == 0x25 ==> u == 0x25) by (bit_vector);
                vstd::utf8::char_u32_cast(s[0], u);
                vstd::utf8::char_u32_cast('%', 0x25);
                assert(u == 0x25 ==> s[0] == '%');
            } else {
                assert(encode_utf8(s)[i] == encode_utf8(rest)[i - head.len()]);
            }
        }
    }
}

/// Bytes without a percent sign stand for themselves.
proof fn lemma_nothing_to_unescape(b: Seq<u8>)
    requires
        forall|i: int| 0 <= i < b.len() ==> #[trigger] b[i] != 0x25,
    ensures
        unescaped(b) == b,
    decreases b.len(),
{
    if b.len() > 0 {
        let rest = b.skip(1);
        assert(b[0] != 0x25);
        assert forall|i: int| 0 <= i < rest.len() implies #[trigger] rest[i] != 0x25 by {
            assert(b[i + 1] != 0x25);
        }
        lemma_nothing_to_unescape(rest);
        assert(unescaped(b) =~= b);
    }
}

/// Decodes `%XX` triples; what is no triple is kept as it stands.
pub fn percent_decode_lossy(s: &str) -> (r: String)
    ensures
        r@ == percent_decoded(s@),
        valid_utf8(unescaped(encode_utf8(s@))) ==> r@ == decode_utf8(unescaped(encode_utf8(s@))),
        !s@.contains('%') ==> r@ == s@,
        s@.len() > 0 && s@[0] == '/' ==> r@.len() > 0 && r@[0] == '/',
{
    proof {
        if !s@.contains('%') {
            lemma_no_percent_sign(s@);
            lemma_nothing_to_unescape(encode_utf8(s@));
            encode_utf8_valid_utf8(s@);
            encode_utf8_decode_utf8(s@);
        }
        if s@.len() > 0 && s@[0] == '/' {
            lemma_scalar_bytes('/');
            assert(encode_utf8(s@)[0] == 0x2f);
        }
    }
    let bytes = percent_decode(s.as_bytes());
    lossy_text(bytes.as_slice())
}

/// The path part of a working-directory report: after the `file://` scheme,
/// and, where there is a slash, from the first slash on.
pub open spec fn cwd_path(s: Seq<char>) -> Seq<char> {
    let s = if starts_with(s, "file://"@) {
        s.skip(7)
    } else {
        s
    };
    match first_index(s, '/', 0) {
        Some(i) => s.skip(i),
        None => s,
    }
}

/// Does a slash stand first, as in an absolute path?
pub open spec fn slash_first(s: Seq<char>) -> bool {
    s.len() > 0 && s[0] == '/'
}

/// The directory that a working-directory report names, unless it is empty.
pub open spec fn reported_cwd(s: Seq<char>) -> Option<Seq<char>> {
    let decoded = percent_decoded(cwd_path(s));
    if decoded.len() == 0 {
        None
    } else {
        Some(decoded)
    }
}

/// The path part of a working-directory report.
pub fn cwd_path_of(s: &str) -> (r: String)
    ensures
        r@ == cwd_path(s@),
{
    let all = chars_of(s);
    let skip: usize = if chars_start_with(all.as_slice(), "file://") {
        7
    } else {
        0
    };
    proof {
        reveal_strlit("file://");
        assert(all@.skip(0) =~= all@);
    }
    let rest = vstd::slice::slice_subrange(all.as_slice(), skip, all.len());
    assert(rest@ =~= all@.skip(skip as int));
    let from: usize = match find_char(rest, '/', 0) {
        Some(i) => i,
        None => 0,
    };
    assert(rest@.skip(0) =~= rest@);
    let out = string_between(rest, from, rest.len());
    assert(out@ =~= rest@.skip(from as int));
    out
}

/// Decodes the payload of a working-directory report:
/// `file://host/abs/path`, `file:///abs/path` or `/abs/path`, with `%XX`
/// escapes. `None` only where nothing is left after decoding. A payload with a
/// slash gives an absolute path, and one without escapes the path as it stands.
pub fn parse_osc7_cwd(s: &str) -> (r: Option<String>)
    ensures
        match r {
            Some(p) => reported_cwd(s@) == Some(p@),
            None => reported_cwd(s@) is None,
        },
        valid_utf8(unescaped(encode_utf8(cwd_path(s@)))) ==> ({
            let path = decode_utf8(unescaped(encode_utf8(cwd_path(s@))));
            if path.len() == 0 {
                r is None
            } else {
                r is Some && r.unwrap()@ == path
            }
        }),
        slash_first(cwd_path(s@)) ==> r is Some && slash_first(r.unwrap()@),
        !cwd_path(s@).contains('%') ==> (if cwd_path(s@).len() == 0 {
            r is None
        } else {
            r is Some && r.unwrap()@ == cwd_path(s@)
        }),
{
    let path = cwd_path_of(s);
    let decoded = percent_decode_lossy(path.as_str());
    if decoded.as_str().is_empty() {
        None
    } else {
        Some(decoded)
    }
}

// ---- the sniffer -------------------------------------------------------

/// The latest signals seen.
#[derive(Debug, Clone, PartialEq, Eq)]
pub struct OscState {
    /// The directory last reported, if any was.
    pub cwd: Option<String>,
}

/// What the sniffer holds, as mathematics.
#[verifier::ext_equal]
pub struct SnifferView {
    /// The directory last reported.
    pub cwd: Option<Seq<char>>,
    /// The messages not drained yet, oldest first.
    pub events: Seq<EventView>,
    /// The body of the control string so far.
    pub dcs_buf: Seq<u8>,
    /// Inside a control string?
    pub in_dcs: bool,
}

/// The view of an optional string.
pub open spec fn text_view(s: Option<String>) -> Option<Seq<char>> {
    match s {
        Some(s) => Some(s@),
        None => None,
    }
}

/// The views of messages.
pub open spec fn events_view(events: Seq<LifecycleEvent>) -> Seq<EventView> {
    events.map_values(|e: LifecycleEvent| e@)
}

/// The directory that a message carries, if it carries one.
pub open spec fn event_cwd(e: EventView) -> Option<Seq<char>> {
    match e {
        EventView::Cwd { cwd } => Some(cwd),
        EventView::Precmd { cwd } => Some(cwd),
        _ => None,
    }
}

/// The sniffer after an operating system command. Only number 7 counts, and
/// only where its payload is UTF-8 and names a directory.
pub open spec fn after_osc(s: SnifferView, params: Seq<Seq<u8>>) -> SnifferView {
    if params.len() >= 2 && params[0] == seq![0x37u8] && valid_utf8(params[1]) {
        match reported_cwd(decode_utf8(params[1])) {
            Some(cwd) => SnifferView { cwd: Some(cwd), ..s },
            None => s,
        }
    } else {
        s
    }
}

/// The sniffer after the end of a control string: a message joins the queue,
/// and its directory, where it carries one, is the latest.
pub open spec fn after_unhook(s: SnifferView) -> SnifferView {
    if !s.in_dcs {
        s
    } else {
        let closed = SnifferView { dcs_buf: Seq::empty(), in_dcs: false, ..s };
        match dcs_event(s.dcs_buf) {
            None => closed,
            Some(e) => SnifferView {
                events: s.events.push(e),
                cwd: if event_cwd(e) is Some {
                    event_cwd(e)
                } else {
                    s.cwd
                },
                ..closed
            },
        }
    }
}

/// The sniffer after one report of the parser.
pub open spec fn after_report(s: SnifferView, e: VtEventView) -> SnifferView {
    match e {
        VtEventView::Osc(params) => after_osc(s, params),
        VtEventView::Hook(action) => SnifferView {
            dcs_buf: encode_utf8(seq![action]),
            in_dcs: true,
            ..s
        },
        VtEventView::Put(byte) => if s.in_dcs {
            SnifferView { dcs_buf: s.dcs_buf.push(byte), ..s }
        } else {
            s
        },
        VtEventView::Unhook => after_unhook(s),
    }
}

/// The sniffer after several reports of the parser.
pub open spec fn after_reports(s: SnifferView, reports: Seq<VtEventView>) -> SnifferView
    decreases reports.len(),
{
    if reports.len() == 0 {
        s
    } else {
        after_report(after_reports(s, reports.drop_last()), reports.last())
    }
}

/// The byte-stream sniffer: the latest directory and a queue of messages.
pub struct OscSniffer {
    parser: VtParser,
    state: OscState,
    events: Vec<LifecycleEvent>,
    dcs_buf: Vec<u8>,
    in_dcs: bool,
}

impl View for OscSniffer {
    type V = SnifferView;

    closed spec fn view(&self) -> SnifferView {
        SnifferView {
            cwd: text_view(self.state.cwd),
            events: events_view(self.events@),
            dcs_buf: self.dcs_buf@,
            in_dcs: self.in_dcs,
        }
    }
}

impl OscSniffer {
    /// The slices fed so far, oldest first.
    pub closed spec fn fed(&self) -> Seq<Seq<u8>> {
        self.parser.fed()
    }

    /// A sniffer that has seen nothing.
    pub fn new() -> (r: OscSniffer)
        ensures
            r.fed() == Seq::<Seq<u8>>::empty(),
            r@ == (SnifferView {
                cwd: None,
                events: Seq::empty(),
                dcs_buf: Seq::empty(),
                in_dcs: false,
            }),
    {
        let r = OscSniffer {
            parser: VtParser::new(),
            state: OscState { cwd: None },
            events: Vec::new(),
            dcs_buf: Vec::new(),
            in_dcs: false,
        };
        assert(events_view(r.events@) =~= Seq::empty());
        r
    }

    /// Takes in an operating system command.
    fn osc_dispatch(&mut self, params: &Vec<Vec<u8>>)
        ensures
            final(self)@ == after_osc(old(self)@, params_view(params@)),
            final(self).fed() == old(self).fed(),
    {
        if params.len() < 2 || params[0].len() != 1 || params[0][0] != 0x37 {
            assert(params@.len() >= 2 && params_view(params@)[0] == seq![0x37u8] ==> params@[0]@[0]
                == 0x37);
            return ;
        }
        assert(params_view(params@)[0] =~= seq![0x37u8]);
        if let Some(payload) = utf8_text(params[1].as_slice()) {
            if let Some(path) = parse_osc7_cwd(payload.as_str()) {
                self.state = OscState { cwd: Some(path) };
            }
        }
    }

    /// Takes in the start of a control string. The parser has swallowed the
    /// final character of the introducer, so it is put back in front.
    fn hook(&mut self, action: char)
        ensures
            final(self)@ == after_report(old(self)@, VtEventView::Hook(action)),
            final(self).fed() == old(self).fed(),
    {
        let mut s = String::new();
        s.push(action);
        assert(s@ =~= seq![action]);
        self.dcs_buf = vstd::slice::slice_to_vec(s.as_str().as_bytes());
        self.in_dcs = true;
    }

    /// Takes in a byte of a control string.
    fn put(&mut self, byte: u8)
        ensures
            final(self)@ == after_report(old(self)@, VtEventView::Put(byte)),
            final(self).fed() == old(self).fed(),
    {
        if self.in_dcs {
            self.dcs_buf.push(byte);
        }
    }

    /// Takes in the end of a control string.
    fn unhook(&mut self)
        ensures
            final(self)@ == after_unhook(old(self)@),
            final(self).fed() == old(self).fed(),
    {
        if self.in_dcs {
            let ghost before = self.events@;
            if let Some(event) = parse_dcs_body(self.dcs_buf.as_slice()) {
                match &event {
                    LifecycleEvent::Cwd { cwd } => {
                        self.state = OscState { cwd: Some(cwd.clone()) };
                    },
                    LifecycleEvent::Precmd { cwd } => {
                        self.state = OscState { cwd: Some(cwd.clone()) };
                    },
                    _ => {},
                }
                self.events.push(event);
                assert(events_view(self.events@) =~= events_view(before).push(event@));
            }
            self.dcs_buf = Vec::new();
            self.in_dcs = false;
        }
    }

    /// Takes in reports of the parser, in order.
    pub fn absorb(&mut self, reports: &Vec<VtEvent>)
        ensures
            final(self)@ == after_reports(old(self)@, vt_events_view(reports@)),
            final(self).fed() == old(self).fed(),
    {
        let ghost all = vt_events_view(reports@);
        let mut i: usize = 0;
        while i < reports.len()
            invariant
                i <= reports@.len(),
                all == vt_events_view(reports@),
                self@ == after_reports(old(self)@, all.take(i as int)),
                self.fed() == old(self).fed(),
            decreases reports@.len() - i,
        {
            assert(all.take(i + 1).drop_last() =~= all.take(i as int));
            assert(all.take(i + 1).last() == reports@[i as int]@);
            match &reports[i] {
                VtEvent::Osc(params) => self.osc_dispatch(params),
                VtEvent::Hook(action) => self.hook(*action),
                VtEvent::Put(byte) => self.put(*byte),
                VtEvent::Unhook => self.unhook(),
            }
            i += 1;
        }
        assert(all.take(i as int) =~= all);
    }

    /// Feeds a slice of the stream.
    pub fn feed(&mut self, bytes: &[u8])
        ensures
            final(self)@ == after_reports(old(self)@, vt_reports(old(self).fed(), bytes@)),
            final(self).fed() == old(self).fed().push(bytes@),
    {
        let reports = self.parser.advance(bytes);
        self.absorb(&reports);
    }

    /// Feeds one byte of the stream.
    pub fn feed_byte(&mut self, byte: u8)
        ensures
            final(self)@ == after_reports(old(self)@, vt_reports(old(self).fed(), seq![byte])),
            final(self).fed() == old(self).fed().push(seq![byte]),
    {
        let one: [u8; 1] = [byte];
        assert(one@ =~= seq![byte]);
        self.feed(&one);
    }

    /// The latest signals.
    pub fn state(&self) -> (r: &OscState)
        ensures
            text_view(r.cwd) == self@.cwd,
    {
        &self.state
    }

    /// Sets the directory without a report from the stream.
    pub fn seed_cwd(&mut self, cwd: String)
        ensures
            final(self)@ == (SnifferView { cwd: Some(cwd@), ..old(self)@ }),
            final(self).fed() == old(self).fed(),
    {
        self.state = OscState { cwd: Some(cwd) };
    }

    /// Takes all queued messages, oldest first, and empties the queue.
    pub fn drain_events(&mut self) -> (r: Vec<LifecycleEvent>)
        ensures
            events_view(r@) == old(self)@.events,
            final(self)@ == (SnifferView { events: Seq::empty(), ..old(self)@ }),
            final(self).fed() == old(self).fed(),
    {
        let mut out: Vec<LifecycleEvent> = Vec::new();
        std::mem::swap(&mut out, &mut self.events);
        assert(events_view(self.events@) =~= Seq::empty());
        out
    }
}

impl Default for OscSniffer {
    fn default() -> (r: OscSniffer)
        ensures
            r.fed() == Seq::<Seq<u8>>::empty(),
            r@ == (SnifferView {
                cwd: None,
                events: Seq::empty(),
                dcs_buf: Seq::empty(),
                in_dcs: false,
            }),
    {
        OscSniffer::new()
    }
}

// ---- laws --------------------------------------------------------------

/// A path may be reported as it is, behind `file://`, or behind `file://` and the
/// name of a host: all three name the same directory.
pub proof fn law_reports_of_one_path_agree(path: Seq<char>, host: Seq<char>)
    requires
        slash_first(path),
        !host.contains('/'),
    ensures
        cwd_path(path) == path,
        cwd_path("file://"@ + path) == path,
        cwd_path("file://"@ + host + path) == path,
        reported_cwd("file://"@ + path) == reported_cwd(path),
        reported_cwd("file://"@ + host + path) == reported_cwd(path),
{
    reveal_strlit("file://");
    let scheme = "file://"@;
    assert(!starts_with(path, scheme)) by {
        if starts_with(path, scheme) {
            assert(path.subrange(0, 7)[0] == scheme[0]);
        }
    }
    lemma_first_index(path, '/', 0);
    assert(path.skip(0) =~= path);
    let one = scheme + path;
    assert(one.subrange(0, 7) =~= scheme);
    assert(one.skip(7) =~= path);
    let two = scheme + host + path;
    let rest = host + path;
    assert(two.subrange(0, 7) =~= scheme);
    assert(two.skip(7) =~= rest);
    assert forall|k: int| 0 <= k < host.len() implies rest[k] != '/' by {
        assert(host.contains(host[k]));
    }
    assert(rest[host.len() as int] == '/');
    lemma_first_index(rest, '/', 0);
    assert(rest.skip(host.len() as int) =~= path);
}

/// What comes after `file://`, where that stands first.
pub open spec fn behind_scheme(s: Seq<char>) -> Seq<char> {
    if starts_with(s, "file://"@) {
        s.skip(7)
    } else {
        s
    }
}

/// A report with a slash behind the scheme has an absolute path; an empty report and
/// a bare scheme have none.
pub proof fn law_slash_makes_a_path(s: Seq<char>)
    ensures
        behind_scheme(s).contains('/') ==> slash_first(cwd_path(s)),
        cwd_path(Seq::empty()).len() == 0,
        cwd_path("file://"@).len() == 0,
{
    let rest = behind_scheme(s);
    if rest.contains('/') {
        let k = choose|k: int| 0 <= k < rest.len() && rest[k] == '/';
        lemma_first_index(rest, '/', 0);
        assert(rest[k] == '/');
    }
    reveal_strlit("file://");
    assert("file://"@.subrange(0, 7) =~= "file://"@);
}

/// Is `c` the hexadecimal digit of a number below 16, in upper or in lower case?
pub open spec fn hex_byte(c: u8, n: int) -> bool {
    if n < 10 {
        c == n + 0x30
    } else {
        c == n - 10 + 0x41 || c == n - 10 + 0x61
    }
}

/// Is `e` an escaped form of `b`? Each byte stands as it is, or as `%` and its two
/// digits, of whichever case; the percent sign never stands as it is.
pub open spec fn is_escaped(e: Seq<u8>, b: Seq<u8>) -> bool
    decreases b.len(),
{
    if b.len() == 0 {
        e.len() == 0
    } else {
        ||| {
            &&& e.len() >= 1
            &&& e[0] == b[0] && b[0] != 0x25
            &&& is_escaped(e.skip(1), b.skip(1))
        }
        ||| {
            &&& e.len() >= 3
            &&& e[0] == 0x25 && hex_byte(e[1], b[0] as int / 16) && hex_byte(e[2], b[0] as int % 16)
            &&& is_escaped(e.skip(3), b.skip(1))
        }
    }
}

/// Whatever a shell escapes in the path that it reports, in digits of whichever
/// case, decoding gives the path back, as long as it escapes the percent sign.
pub proof fn law_escapes_round_trip(e: Seq<u8>, b: Seq<u8>)
    requires
        is_escaped(e, b),
    ensures
        unescaped(e) == b,
    decreases b.len(),
{
    if b.len() > 0 {
        if e.len() >= 1 && e[0] == b[0] && b[0] != 0x25 && is_escaped(e.skip(1), b.skip(1)) {
            law_escapes_round_trip(e.skip(1), b.skip(1));
        } else {
            law_escapes_round_trip(e.skip(3), b.skip(1));
            assert(hex_digit(e[1]) == Some((b[0] / 16) as u8));
            assert(hex_digit(e[2]) == Some((b[0] % 16) as u8));
        }
        assert(unescaped(e) =~= b);
    }
}

/// An operating system command changes nothing unless its number is 7: the
/// prompt marks of foreign scripts move neither the directory nor the queue.
pub proof fn law_other_commands_are_ignored(s: SnifferView, params: Seq<Seq<u8>>)
    requires
        params.len() == 0 || params[0] != seq![0x37u8],
    ensures
        after_report(s, VtEventView::Osc(params)) == s,
{
}

/// An operating system command never queues a message.
pub proof fn law_commands_queue_nothing(s: SnifferView, params: Seq<Seq<u8>>)
    ensures
        after_report(s, VtEventView::Osc(params)).events == s.events,
{
}

/// Reports taken in in two lots leave what they leave in one.
pub proof fn law_reports_in_two_lots(s: SnifferView, a: Seq<VtEventView>, b: Seq<VtEventView>)
    ensures
        after_reports(after_reports(s, a), b) == after_reports(s, a + b),
    decreases b.len(),
{
    if b.len() == 0 {
        assert(a + b =~= a);
    } else {
        law_reports_in_two_lots(s, a, b.drop_last());
        assert((a + b).drop_last() =~= a + b.drop_last());
        assert((a + b).last() == b.last());
    }
}

/// The reports of one complete control string.
pub open spec fn control_string(action: char, body: Seq<u8>) -> Seq<VtEventView> {
    seq![VtEventView::Hook(action)] + body.map_values(|b: u8| VtEventView::Put(b))
        + seq![VtEventView::Unhook]
}

/// The bytes of a control string gather in the buffer.
proof fn lemma_puts(s: SnifferView, body: Seq<u8>)
    requires
        s.in_dcs,
    ensures
        after_reports(s, body.map_values(|b: u8| VtEventView::Put(b))) == (SnifferView {
            dcs_buf: s.dcs_buf + body,
            ..s
        }),
    decreases body.len(),
{
    let puts = body.map_values(|b: u8| VtEventView::Put(b));
    if body.len() == 0 {
        assert(s.dcs_buf + body =~= s.dcs_buf);
    } else {
        lemma_puts(s, body.drop_last());
        assert(puts.drop_last() =~= body.drop_last().map_values(|b: u8| VtEventView::Put(b)));
        assert(puts.last() == VtEventView::Put(body.last()));
        assert((s.dcs_buf + body.drop_last()).push(body.last()) =~= s.dcs_buf + body);
    }
}

/// A complete control string queues exactly the message that its body
/// carries, if any, whatever an unfinished one before it had left behind.
pub proof fn law_control_string_queues_its_message(s: SnifferView, action: char, body: Seq<u8>)
    ensures
        ({
            let after = after_reports(s, control_string(action, body));
            &&& !after.in_dcs
            &&& after.dcs_buf.len() == 0
            &&& match dcs_event(encode_utf8(seq![action]) + body) {
                Some(e) => after.events == s.events.push(e) && after.cwd == (if event_cwd(
                    e,
                ) is Some {
                    event_cwd(e)
                } else {
                    s.cwd
                }),
                None => after.events == s.events && after.cwd == s.cwd,
            }
        }),
{
    let hook = seq![VtEventView::Hook(action)];
    let puts = body.map_values(|b: u8| VtEventView::Put(b));
    let unhook = seq![VtEventView::Unhook];
    let hooked = after_report(s, VtEventView::Hook(action));
    assert(hook.drop_last() =~= Seq::<VtEventView>::empty());
    assert(after_reports(s, hook) == hooked) by {
        reveal_with_fuel(after_reports, 2);
    }
    lemma_puts(hooked, body);
    law_reports_in_two_lots(s, hook, puts);
    let full = after_reports(s, hook + puts);
    law_reports_in_two_lots(s, hook + puts, unhook);
    assert(unhook.drop_last() =~= Seq::<VtEventView>::empty());
    assert(after_reports(full, unhook) == after_unhook(full)) by {
        reveal_with_fuel(after_reports, 2);
    }
}

/// A byte that is no percent sign stands for itself, and so does a percent sign that two
/// hexadecimal digits do not follow.
pub proof fn law_what_is_no_escape(b: u8, rest: Seq<u8>)
    ensures
        b != 0x25 ==> unescaped(seq![b] + rest) == seq![b] + unescaped(rest),
        rest.len() < 2 || !(exists|n: int| 0 <= n < 16 && hex_byte(rest[0], n)) || !(exists|n: int|
            0 <= n < 16 && hex_byte(rest[1], n)) ==> unescaped(seq![b] + rest) == seq![b]
            + unescaped(rest),
        unescaped(Seq::<u8>::empty()).len() == 0,
{
    let all = seq![b] + rest;
    assert(all.skip(1) =~= rest);
    if escape_first(all) {
        let x = hex_digit(all[1]).unwrap() as int;
        let y = hex_digit(all[2]).unwrap() as int;
        assert(hex_byte(rest[0], x) && 0 <= x < 16);
        assert(hex_byte(rest[1], y) && 0 <= y < 16);
    }
}

/// A directory is reported by command 7 alone, in UTF-8, and only where something is left
/// of it; then it is the latest, and nothing else changes.
pub proof fn law_reports_of_directories(s: SnifferView, payload: Seq<char>)
    ensures
        ({
            let w = after_report(s, VtEventView::Osc(seq![seq![0x37u8], encode_utf8(payload)]));
            match reported_cwd(payload) {
                Some(dir) => w == (SnifferView { cwd: Some(dir), ..s }),
                None => w == s,
            }
        }),
        reported_cwd(payload) is None <==> percent_decoded(cwd_path(payload)).len() == 0,
        reported_cwd(payload) is Some ==> reported_cwd(payload).unwrap() == percent_decoded(
            cwd_path(payload),
        ),
{
    let params = seq![seq![0x37u8], encode_utf8(payload)];
    encode_utf8_valid_utf8(payload);
    encode_utf8_decode_utf8(payload);
    assert(params[1] == encode_utf8(payload));
    assert(params[0] == seq![0x37u8]);
}

/// The messages of a new prompt and of a change of directory tell the directory; no other
/// message does.
pub proof fn law_messages_that_tell_a_directory(e: EventView, dir: Seq<char>)
    ensures
        event_cwd(EventView::Cwd { cwd: dir }) == Some(dir),
        event_cwd(EventView::Precmd { cwd: dir }) == Some(dir),
        !(e is Cwd) && !(e is Precmd) ==> event_cwd(e) is None,
{
}

/// Outside a control string bytes and ends change nothing; the start of one drops what an
/// unfinished one had left, and touches neither the directory nor the queue.
pub proof fn law_control_strings_are_kept_apart(s: SnifferView, byte: u8, action: char)
    ensures
        !s.in_dcs ==> after_report(s, VtEventView::Put(byte)) == s,
        !s.in_dcs ==> after_report(s, VtEventView::Unhook) == s,
        ({
            let w = after_report(s, VtEventView::Hook(action));
            w.in_dcs && w.dcs_buf == encode_utf8(seq![action]) && w.cwd == s.cwd && w.events
                == s.events
        }),
        s.in_dcs ==> after_report(s, VtEventView::Put(byte)) == (SnifferView {
            dcs_buf: s.dcs_buf + seq![byte],
            ..s
        }),
        after_reports(s, Seq::<VtEventView>::empty()) == s,
{
    assert(s.dcs_buf.push(byte) =~= s.dcs_buf + seq![byte]);
}

/// Of an operating system command with the number 7 the second parameter counts, however
/// many follow; one that is no UTF-8, and a command without it, change nothing.
pub proof fn law_second_parameter_counts(s: SnifferView, params: Seq<Seq<u8>>)
    requires
        params.len() == 0 || params[0] == seq![0x37u8],
    ensures
        ({
            let w = after_report(s, VtEventView::Osc(params));
            &&& params.len() < 2 ==> w == s
            &&& params.len() >= 2 && !valid_utf8(params[1]) ==> w == s
            &&& params.len() >= 2 && valid_utf8(params[1]) ==> (match reported_cwd(
                decode_utf8(params[1]),
            ) {
                Some(dir) => w == (SnifferView { cwd: Some(dir), ..s }),
                None => w == s,
            })
        }),
{
}

} // verus!
