//! The escape-sequence parser: which control strings a byte stream holds.

use vstd::prelude::*;

verus! {

/// The parser of the `vte` crate.
#[verifier::external_type_specification]
#[verifier::external_body]
pub struct ExParser<const OSC_RAW_BUF_SIZE: usize>(vte::Parser<OSC_RAW_BUF_SIZE>);

/// The numeric parameters of a control string.
#[verifier::external_type_specification]
#[verifier::external_body]
pub struct ExParams(vte::Params);

/// What the parser reports of a byte stream, as far as control strings go.
#[derive(Debug, PartialEq, Eq)]
pub enum VtEvent {
    /// An operating system command, with its parameters.
    Osc(Vec<Vec<u8>>),
    /// The start of a device control string, with its final character.
    Hook(char),
    /// A byte of the device control string.
    Put(u8),
    /// The end of the device control string.
    Unhook,
}

/// What the parser reports, as mathematics.
pub enum VtEventView {
    Osc(Seq<Seq<u8>>),
    Hook(char),
    Put(u8),
    Unhook,
}

/// The views of byte strings.
pub open spec fn params_view(params: Seq<Vec<u8>>) -> Seq<Seq<u8>> {
    params.map_values(|p: Vec<u8>| p@)
}

impl View for VtEvent {
    type V = VtEventView;

    open spec fn view(&self) -> VtEventView {
        match *self {
            VtEvent::Osc(params) => VtEventView::Osc(params_view(params@)),
            VtEvent::Hook(action) => VtEventView::Hook(action),
            VtEvent::Put(byte) => VtEventView::Put(byte),
            VtEvent::Unhook => VtEventView::Unhook,
        }
    }
}

/// The views of events.
pub open spec fn vt_events_view(events: Seq<VtEvent>) -> Seq<VtEventView> {
    events.map_values(|e: VtEvent| e@)
}

/// The views of borrowed byte strings.
pub open spec fn slices_view(params: Seq<&[u8]>) -> Seq<Seq<u8>> {
    params.map_values(|p: &[u8]| p@)
}

/// Copies byte strings.
fn copy_params(params: &[&[u8]]) -> (r: Vec<Vec<u8>>)
    ensures
        params_view(r@) == slices_view(params@),
{
    let mut copy: Vec<Vec<u8>> = Vec::new();
    let mut i: usize = 0;
    while i < params.len()
        invariant
            i <= params@.len(),
            copy@.len() == i,
            forall|k: int| 0 <= k < i ==> (#[trigger] copy@[k])@ == params@[k]@,
        decreases params@.len() - i,
    {
        copy.push(vstd::slice::slice_to_vec(params[i]));
        i += 1;
    }
    assert(params_view(copy@) =~= slices_view(params@));
    copy
}

/// The list that the parser's reports go to.
struct Recorder {
    events: Vec<VtEvent>,
}

impl Recorder {
    /// What was recorded so far, oldest first.
    pub closed spec fn recorded(&self) -> Seq<VtEventView> {
        vt_events_view(self.events@)
    }

    /// Appends one event.
    fn record(&mut self, event: VtEvent)
        ensures
            final(self).recorded() == old(self).recorded().push(event@),
    {
        self.events.push(event);
        assert(self.recorded() =~= old(self).recorded().push(event@));
    }
}

impl vte::Perform for Recorder {
    fn osc_dispatch(&mut self, params: &[&[u8]], _bell_terminated: bool)
        ensures
            final(self).recorded() == old(self).recorded().push(
                VtEventView::Osc(slices_view(params@)),
            ),
    {
        self.record(VtEvent::Osc(copy_params(params)));
    }

    fn hook(&mut self, _params: &vte::Params, _intermediates: &[u8], _ignore: bool, action: char)
        ensures
            final(self).recorded() == old(self).recorded().push(VtEventView::Hook(action)),
    {
        self.record(VtEvent::Hook(action));
    }

    fn put(&mut self, byte: u8)
        ensures
            final(self).recorded() == old(self).recorded().push(VtEventView::Put(byte)),
    {
        self.record(VtEvent::Put(byte));
    }

    fn unhook(&mut self)
        ensures
            final(self).recorded() == old(self).recorded().push(VtEventView::Unhook),
    {
        self.record(VtEvent::Unhook);
    }
}

/// What a fresh `vte::Parser` reports of `bytes` after it was fed the slices
/// `fed`, one call of `advance` for each.
pub uninterp spec fn vt_reports(fed: Seq<Seq<u8>>, bytes: Seq<u8>) -> Seq<VtEventView>;

/// A `vte::Parser` together with what was fed to it.
pub struct VtParser {
    parser: vte::Parser,
    fed: Ghost<Seq<Seq<u8>>>,
}

impl VtParser {
    /// The slices fed so far, oldest first.
    pub closed spec fn fed(&self) -> Seq<Seq<u8>> {
        self.fed@
    }

    /// `vte::Parser::new` makes a parser that was fed nothing.
    #[verifier::external_body]
    pub(crate) fn new() -> (r: VtParser)
        ensures
            r.fed() == Seq::<Seq<u8>>::empty(),
    {
        VtParser { parser: vte::Parser::new(), fed: Ghost(Seq::empty()) }
    }

    /// `vte::Parser::advance` reports what `bytes` complete, given the slices
    /// fed before. Its reports depend on those slices and on `bytes` alone.
    /// How a stream is cut into slices may matter: the parser holds back a
    /// character whose bytes are split between two slices.
    #[verifier::external_body]
    pub(crate) fn advance(&mut self, bytes: &[u8]) -> (r: Vec<VtEvent>)
        ensures
            vt_events_view(r@) == vt_reports(old(self).fed(), bytes@),
            final(self).fed() == old(self).fed().push(bytes@),
    {
        let mut recorder = Recorder { events: Vec::new() };
        self.parser.advance(&mut recorder, bytes);
        recorder.events
    }
}

} // verus!
