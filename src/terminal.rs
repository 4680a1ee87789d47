use vstd::prelude::*;
use crate::decoder::{Decoder, events_after, lemma_events_after_concat};
use crate::screen::TextBuffer;
use crate::screen_model::{ScreenModel, apply_events, lemma_apply_events_concat};

verus! {

/// What a terminal holds: its screen, and every byte it was given.
pub struct TerminalModel {
    pub screen: ScreenModel,
    pub fed: Seq<u8>,
}

impl TerminalModel {
    /// The terminal after it was given `bytes`.
    pub open spec fn feed(self, bytes: Seq<u8>) -> TerminalModel {
        TerminalModel {
            screen: apply_events(self.screen, events_after(self.fed, bytes)),
            fed: self.fed + bytes,
        }
    }
}

/// Giving a terminal `a` and then `b` leaves it as giving it `a + b` at once does, wherever the
/// bytes are split, inside an escape sequence included.
pub proof fn lemma_split_input(t: TerminalModel, a: Seq<u8>, b: Seq<u8>)
    ensures
        t.feed(a).feed(b) == t.feed(a + b),
{
    lemma_events_after_concat(t.fed, a, b);
    lemma_apply_events_concat(t.screen, events_after(t.fed, a), events_after(t.fed + a, b));
    assert(t.fed + a + b =~= t.fed + (a + b));
}

/// A screen buffer driven by a control-sequence parser.
pub struct Terminal {
    buffer: TextBuffer,
    parser: Decoder,
}

impl View for Terminal {
    type V = TerminalModel;

    closed spec fn view(&self) -> TerminalModel {
        TerminalModel { screen: self.buffer@, fed: self.parser.fed() }
    }
}

impl Terminal {
    pub open spec fn wf(&self) -> bool {
        self@.screen.wf()
    }

    /// A terminal showing `height` rows of `width` cells, given nothing yet.
    pub fn new(width: usize, height: usize) -> (t: Terminal)
        requires
            width > 0,
            height > 0,
        ensures
            t.wf(),
            t@.fed == Seq::<u8>::empty(),
            t@.screen.rows == Seq::<Seq<crate::text::Cell>>::empty(),
            t@.screen.width == width,
            t@.screen.height == height,
            t@.screen.top == 0,
            t@.screen.cx == 0,
            t@.screen.cy == 0,
            t@.screen.pen == crate::text::Cell::spec_default(),
    {
        Terminal { buffer: TextBuffer::new(width, height), parser: Decoder::new() }
    }

    /// Feeds `input` to the parser, byte by byte, and acts on what it reports.
    pub fn process_input(&mut self, input: &[u8])
        requires
            old(self).wf(),
        ensures
            final(self).wf(),
            final(self)@ == old(self)@.feed(input@),
    {
        let ghost start = self@;
        let mut i: usize = 0;
        assert(input@.subrange(0, 0) =~= Seq::<u8>::empty());
        assert(start.fed + Seq::<u8>::empty() =~= start.fed);
        while i < input.len()
            invariant
                0 <= i <= input@.len(),
                self.wf(),
                self@ == start.feed(input@.subrange(0, i as int)),
            decreases input@.len() - i,
        {
            let ghost before = self@;
            let events = self.parser.feed(input[i]);
            let mut j: usize = 0;
            assert(events@.subrange(0, 0) =~= Seq::<crate::decoder::VtEvent>::empty());
            while j < events.len()
                invariant
                    0 <= j <= events@.len(),
                    self.wf(),
                    self.parser.fed() == before.fed.push(input@[i as int]),
                    self.buffer@ == apply_events(before.screen, events@.subrange(0, j as int)),
                decreases events@.len() - j,
            {
                self.buffer.dispatch(&events[j]);
                assert(events@.subrange(0, j + 1).drop_last() =~= events@.subrange(0, j as int));
                j = j + 1;
            }
            proof {
                let done = input@.subrange(0, i as int);
                let next = input@.subrange(0, i + 1);
                assert(events@.subrange(0, events@.len() as int) =~= events@);
                assert(next.drop_last() =~= done);
                assert(next.last() == input@[i as int]);
                lemma_apply_events_concat(
                    start.screen,
                    events_after(start.fed, done),
                    events@,
                );
                assert(start.fed + next =~= (start.fed + done).push(input@[i as int]));
            }
            i = i + 1;
        }
        assert(input@.subrange(0, input@.len() as int) =~= input@);
    }

    /// The characters of the rows in the window, each row followed by a line break.
    pub fn render_as_str(&self) -> (s: String)
        ensures
            s@ == self@.screen.viewport_text(),
    {
        self.buffer.render_viewport()
    }

    /// The screen buffer, for reading.
    pub fn buffer(&self) -> (b: &TextBuffer)
        ensures
            b@ == self@.screen,
            b.wf() == self.wf(),
    {
        &self.buffer
    }

    /// Moves the window by `delta` rows, clamped to `-5..=5`: toward older rows where `delta`
    /// is positive, toward newer rows where it is negative.
    pub fn scroll_buffer(&mut self, delta: i32)
        requires
            old(self).wf(),
        ensures
            final(self).wf(),
            final(self)@.fed == old(self)@.fed,
            final(self)@.screen == (if delta > 0 {
                old(self)@.screen.scrolled_up(if delta > 5 { 5 } else { delta as int })
            } else {
                old(self)@.screen.scrolled_down(if delta < -5 { 5 } else { -delta })
            }),
    {
        if delta > 0 {
            let n: usize = if delta > 5 { 5 } else { delta as usize };
            self.buffer.scroll_up(n);
        } else {
            let n: usize = if delta < -5 { 5 } else { (-delta) as usize };
            self.buffer.scroll_down(n);
        }
    }
}

} // verus!
