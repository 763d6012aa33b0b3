//! What terminal output asks for, as the `vte` parser reads it.

use vstd::prelude::*;

verus! {

/// The parser of `vte`. Here it stands for what it has read so far.
#[verifier::external_type_specification]
#[verifier::external_body]
pub struct ExParser<const N: usize>(vte::Parser<N>);

/// The parameters of a control sequence, as `vte` hands them out.
#[verifier::external_type_specification]
#[verifier::external_body]
pub struct ExParams(vte::Params);

/// One thing that terminal output asks for.
#[derive(Debug, PartialEq, Eq)]
pub enum VtEvent {
    /// Write a character.
    Print(char),
    /// A control character.
    Execute(u8),
    /// An operating system command: its parts.
    Osc(Vec<Vec<u8>>),
    /// A control sequence: its parameters, each with what follows it after colons, its intermediate
    /// bytes, and its last character.
    Csi { params: Vec<Vec<u16>>, intermediates: Vec<u8>, action: char },
    /// An escape sequence: its last byte.
    Esc(u8),
}

/// What an event says.
pub enum VtEventView {
    Print(char),
    Execute(u8),
    Osc(Seq<Seq<u8>>),
    Csi { params: Seq<Seq<u16>>, intermediates: Seq<u8>, action: char },
    Esc(u8),
}

impl View for VtEvent {
    type V = VtEventView;

    open spec fn view(&self) -> VtEventView {
        match self {
            VtEvent::Print(c) => VtEventView::Print(*c),
            VtEvent::Execute(b) => VtEventView::Execute(*b),
            VtEvent::Osc(parts) => VtEventView::Osc(parts@.map_values(|p: Vec<u8>| p@)),
            VtEvent::Csi { params, intermediates, action } => VtEventView::Csi {
                params: params@.map_values(|p: Vec<u16>| p@),
                intermediates: intermediates@,
                action: *action,
            },
            VtEvent::Esc(b) => VtEventView::Esc(*b),
        }
    }
}

/// What the events say.
pub open spec fn event_views(events: Seq<VtEvent>) -> Seq<VtEventView> {
    events.map_values(|e: VtEvent| e@)
}

/// The events, in the order in which the parser reports them.
pub struct Events {
    list: Vec<VtEvent>,
}

impl View for Events {
    type V = Seq<VtEventView>;

    closed spec fn view(&self) -> Seq<VtEventView> {
        event_views(self.list@)
    }
}

fn bytes_of(part: &[u8]) -> (v: Vec<u8>)
    ensures
        v@ == part@,
{
    let mut v: Vec<u8> = Vec::new();
    let mut i: usize = 0;
    while i < part.len()
        invariant
            i <= part.len(),
            v@ == part@.take(i as int),
        decreases part.len() - i,
    {
        v.push(part[i]);
        assert(part@.take(i + 1) =~= part@.take(i as int).push(part@[i as int]));
        i = i + 1;
    }
    assert(part@.take(part@.len() as int) =~= part@);
    v
}

/// The parameters, in order, each with what follows it after colons.
pub uninterp spec fn params_of(params: vte::Params) -> Seq<Seq<u16>>;

/// `vte::Params::iter`: the parameters of a control sequence, one for one.
#[verifier::external_body]
fn params_to_vecs(params: &vte::Params) -> (v: Vec<Vec<u16>>)
    ensures
        v@.map_values(|p: Vec<u16>| p@) == params_of(*params),
{
    params.iter().map(|p| p.to_vec()).collect()
}

fn parts_of(parts: &[&[u8]]) -> (v: Vec<Vec<u8>>)
    ensures
        v@.map_values(|p: Vec<u8>| p@) == parts@.map_values(|p: &[u8]| p@),
{
    let mut v: Vec<Vec<u8>> = Vec::new();
    let mut i: usize = 0;
    while i < parts.len()
        invariant
            i <= parts.len(),
            v@.len() == i,
            forall|k: int| 0 <= k < i ==> (#[trigger] v@[k])@ == parts@[k]@,
        decreases parts.len() - i,
    {
        v.push(bytes_of(parts[i]));
        i = i + 1;
    }
    assert(v@.map_values(|p: Vec<u8>| p@) =~= parts@.map_values(|p: &[u8]| p@));
    v
}

impl vte::Perform for Events {
    fn print(&mut self, c: char)
        ensures
            final(self)@ == old(self)@.push(VtEventView::Print(c)),
    {
        self.list.push(VtEvent::Print(c));
        assert(self@ =~= old(self)@.push(VtEventView::Print(c)));
    }

    fn execute(&mut self, byte: u8)
        ensures
            final(self)@ == old(self)@.push(VtEventView::Execute(byte)),
    {
        self.list.push(VtEvent::Execute(byte));
        assert(self@ =~= old(self)@.push(VtEventView::Execute(byte)));
    }

    fn osc_dispatch(&mut self, params: &[&[u8]], _bell_terminated: bool)
        ensures
            final(self)@ == old(self)@.push(
                VtEventView::Osc(params@.map_values(|p: &[u8]| p@)),
            ),
    {
        self.list.push(VtEvent::Osc(parts_of(params)));
        assert(self@ =~= old(self)@.push(
            VtEventView::Osc(params@.map_values(|p: &[u8]| p@)),
        ));
    }

    fn csi_dispatch(&mut self, params: &vte::Params, intermediates: &[u8], _ignore: bool, action: char)
        ensures
            final(self)@ == old(self)@.push(
                (VtEventView::Csi {
                    params: params_of(*params),
                    intermediates: intermediates@,
                    action,
                }),
            ),
    {
        self.list.push(
            VtEvent::Csi {
                params: params_to_vecs(params),
                intermediates: bytes_of(intermediates),
                action,
            },
        );
        assert(self@ =~= old(self)@.push(
            (VtEventView::Csi { params: params_of(*params), intermediates: intermediates@, action }),
        ));
    }

    fn esc_dispatch(&mut self, _intermediates: &[u8], _ignore: bool, byte: u8)
        ensures
            final(self)@ == old(self)@.push(VtEventView::Esc(byte)),
    {
        self.list.push(VtEvent::Esc(byte));
        assert(self@ =~= old(self)@.push(VtEventView::Esc(byte)));
    }
}

/// The pieces of output that a parser has been fed since it was made, in order.
pub uninterp spec fn fed_to(parser: vte::Parser) -> Seq<Seq<u8>>;

/// What `bytes` ask for, fed to a parser behind the pieces `fed`.
pub uninterp spec fn vt_events(fed: Seq<Seq<u8>>, bytes: Seq<u8>) -> Seq<VtEventView>;

/// `vte::Parser::new`: a parser that has been fed nothing.
#[verifier::external_body]
pub(crate) fn new_parser() -> (parser: vte::Parser)
    ensures
        fed_to(parser) == Seq::<Seq<u8>>::empty(),
{
    vte::Parser::new()
}

/// `vte::Parser::advance`: what the parser reports of some bytes is a function of these and of the
/// pieces that it has been fed before, here `vt_events`; it has then been fed these too. The reports go
/// to `Events`, which takes each of them down. Nothing is said of pieces put together: where output that
/// is no UTF-8 is cut in two, the parser may report something else than of the whole. Of no bytes it
/// reports nothing.
#[verifier::external_body]
pub(crate) fn advance(parser: &mut vte::Parser, bytes: &[u8]) -> (events: Vec<VtEvent>)
    ensures
        event_views(events@) == vt_events(fed_to(*old(parser)), bytes@),
        bytes@.len() == 0 ==> events@.len() == 0,
        fed_to(*final(parser)) == fed_to(*old(parser)).push(bytes@),
{
    let mut events = Events { list: Vec::new() };
    parser.advance(&mut events, bytes);
    events.list
}

} // verus!
