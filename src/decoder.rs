use vstd::prelude::*;

verus! {

/// One action reported by the control-sequence parser.
pub enum VtEvent {
    /// A printable character.
    Print(char),
    /// A C0 or C1 control byte.
    Execute(u8),
    /// A control sequence: the first value of each parameter, and its final byte.
    Csi { params: Vec<u16>, action: u8 },
    /// An escape sequence with its final byte.
    Esc(u8),
    /// An operating-system command.
    Osc,
    /// The start of a device control string, with its final byte.
    Hook(u8),
    /// A byte of a device control string.
    Put(u8),
    /// The end of a device control string.
    Unhook,
}

/// The actions that `anstyle_parse::Parser::advance` reports for `byte`, as `EventSink` records
/// them, given every byte the parser was fed before it since it was made.
pub uninterp spec fn vt_step(history: Seq<u8>, byte: u8) -> Seq<VtEvent>;

/// The actions reported while `bytes` are fed, one by one, to a parser that has already been
/// fed `history`.
pub open spec fn events_after(history: Seq<u8>, bytes: Seq<u8>) -> Seq<VtEvent>
    decreases bytes.len(),
{
    if bytes.len() == 0 {
        Seq::empty()
    } else {
        events_after(history, bytes.drop_last()) + vt_step(
            history + bytes.drop_last(),
            bytes.last(),
        )
    }
}

/// Feeding `a` then `b` reports the actions of `a`, then those of `b`.
pub proof fn lemma_events_after_concat(history: Seq<u8>, a: Seq<u8>, b: Seq<u8>)
    ensures
        events_after(history, a + b) == events_after(history, a) + events_after(history + a, b),
    decreases b.len(),
{
    if b.len() == 0 {
        assert(a + b =~= a);
        assert(events_after(history, a) + Seq::<VtEvent>::empty() =~= events_after(history, a));
    } else {
        let b0 = b.drop_last();
        lemma_events_after_concat(history, a, b0);
        assert((a + b).drop_last() =~= a + b0);
        assert((a + b).last() == b.last());
        assert(history + (a + b0) =~= (history + a) + b0);
        assert(events_after(history, a) + (events_after(history + a, b0) + vt_step(
            (history + a) + b0,
            b.last(),
        )) =~= (events_after(history, a) + events_after(history + a, b0)) + vt_step(
            (history + a) + b0,
            b.last(),
        ));
    }
}

/// Collects what the parser reports.
pub struct EventSink {
    pub events: Vec<VtEvent>,
}

#[verifier::external_type_specification]
#[verifier::external_body]
#[verifier::reject_recursive_types(C)]
pub struct ExParser<C>(anstyle_parse::Parser<C>);

#[verifier::external_type_specification]
#[verifier::external_body]
pub struct ExUtf8Parser(anstyle_parse::Utf8Parser);

#[verifier::external_type_specification]
#[verifier::external_body]
pub struct ExParams(anstyle_parse::Params);

/// Relies on anstyle_parse::Params::iter: yields each parameter as the non-empty slice of its
/// values; the first value of each is kept.
#[verifier::external_body]
fn first_values(params: &anstyle_parse::Params) -> Vec<u16> {
    params.iter().map(|p| p[0]).collect()
}

impl anstyle_parse::Perform for EventSink {
    fn print(&mut self, c: char) {
        self.events.push(VtEvent::Print(c));
    }

    fn execute(&mut self, byte: u8) {
        self.events.push(VtEvent::Execute(byte));
    }

    fn hook(
        &mut self,
        _params: &anstyle_parse::Params,
        _intermediates: &[u8],
        _ignore: bool,
        action: u8,
    ) {
        self.events.push(VtEvent::Hook(action));
    }

    fn put(&mut self, byte: u8) {
        self.events.push(VtEvent::Put(byte));
    }

    fn unhook(&mut self) {
        self.events.push(VtEvent::Unhook);
    }

    fn osc_dispatch(&mut self, _params: &[&[u8]], _bell_terminated: bool) {
        self.events.push(VtEvent::Osc);
    }

    fn csi_dispatch(
        &mut self,
        params: &anstyle_parse::Params,
        _intermediates: &[u8],
        _ignore: bool,
        action: u8,
    ) {
        let params = first_values(params);
        self.events.push(VtEvent::Csi { params, action });
    }

    fn esc_dispatch(&mut self, _intermediates: &[u8], _ignore: bool, byte: u8) {
        self.events.push(VtEvent::Esc(byte));
    }
}

/// The control-sequence parser, with the bytes fed to it so far.
pub struct Decoder {
    parser: anstyle_parse::Parser,
    fed: Ghost<Seq<u8>>,
}

/// Relies on anstyle_parse::Parser::new: a parser in its ground state, fed nothing yet.
#[verifier::external_body]
fn new_parser() -> anstyle_parse::Parser {
    anstyle_parse::Parser::<anstyle_parse::DefaultCharAccumulator>::new()
}

/// Relies on anstyle_parse::Parser::advance: what it reports for `byte` is decided by the parser's
/// state, which is decided by the bytes fed to it since `new_parser` made it. Those bytes are
/// `decoder.fed`: only this function and `Decoder::feed`, which records each byte, touch the
/// parser.
#[verifier::external_body]
fn advance(decoder: &mut Decoder, byte: u8) -> (r: Vec<VtEvent>)
    ensures
        r@ == vt_step(old(decoder).fed@, byte),
        final(decoder).fed == old(decoder).fed,
{
    let mut sink = EventSink { events: Vec::new() };
    decoder.parser.advance(&mut sink, byte);
    sink.events
}

impl Decoder {
    pub closed spec fn fed(&self) -> Seq<u8> {
        self.fed@
    }

    pub fn new() -> (d: Decoder)
        ensures
            d.fed() == Seq::<u8>::empty(),
    {
        Decoder { parser: new_parser(), fed: Ghost(Seq::empty()) }
    }

    /// Feeds one byte and returns the actions it completes.
    pub fn feed(&mut self, byte: u8) -> (r: Vec<VtEvent>)
        ensures
            r@ == vt_step(old(self).fed(), byte),
            final(self).fed() == old(self).fed().push(byte),
    {
        let r = advance(self, byte);
        self.fed = Ghost(self.fed@.push(byte));
        r
    }
}

} // verus!
