//! A terminal made of two buffers, for tests and for driving the editor
//! from something that is not a terminal at all.
//!
//! Script the input, read back the escapes: a host writing a completer can
//! assert what Tab does without owning a tty.

use vstd::prelude::*;
use std::collections::VecDeque;
use crate::decode::{AnsiDecoder, DecoderView, ground, push_spec};
use crate::key::KeyPress;
use crate::term::{Capabilities, Event, EventView, Result, Size, Terminal};

verus! {

/// Scripted input in, written bytes out.
#[derive(Debug)]
pub struct MemTerminal {
    events: VecDeque<Event>,
    output: String,
    size: Size,
    capabilities: Capabilities,
    decoder: AnsiDecoder,
    raw: bool,
    raw_calls: Vec<bool>,
}

/// A scripted terminal as a value.
pub struct MemView {
    pub events: Seq<EventView>,
    pub output: Seq<char>,
    pub size: Size,
    pub capabilities: Capabilities,
    pub decoder: DecoderView,
    pub raw: bool,
    pub raw_calls: Seq<bool>,
}

impl View for MemTerminal {
    type V = MemView;

    closed spec fn view(&self) -> MemView {
        MemView {
            events: self.events@.map_values(|e: Event| e@),
            output: self.output@,
            size: self.size,
            capabilities: self.capabilities,
            decoder: self.decoder@,
            raw: self.raw,
            raw_calls: self.raw_calls@,
        }
    }
}

/// Keys as the events that deliver them.
pub open spec fn key_events(keys: Seq<KeyPress>) -> Seq<EventView> {
    keys.map_values(|k: KeyPress| EventView::Key(k))
}

/// What a raw terminal can do: keys, escapes, resizes, no line discipline.
pub open spec fn raw_capabilities() -> Capabilities {
    Capabilities { raw_mode: true, ansi: true, resize_events: true, line_discipline: false }
}

/// What a cooked terminal can do: finished lines, plain text.
pub open spec fn cooked_capabilities() -> Capabilities {
    Capabilities { raw_mode: false, ansi: false, resize_events: false, line_discipline: true }
}

/// A fresh terminal of `size` that can do `capabilities`.
pub open spec fn fresh(size: Size, capabilities: Capabilities) -> MemView {
    MemView {
        events: Seq::empty(),
        output: Seq::empty(),
        size,
        capabilities,
        decoder: ground(),
        raw: false,
        raw_calls: Seq::empty(),
    }
}

/// The terminal after `set_raw(enabled)`: in raw mode exactly when asked,
/// and the call recorded.
pub open spec fn after_set_raw(m: MemView, enabled: bool) -> MemView {
    MemView { raw: enabled, raw_calls: m.raw_calls.push(enabled), ..m }
}

/// The terminal after `set_raw` with each of `calls` in turn.
pub open spec fn after_set_raw_calls(m: MemView, calls: Seq<bool>) -> MemView
    decreases calls.len(),
{
    if calls.len() == 0 {
        m
    } else {
        after_set_raw(after_set_raw_calls(m, calls.drop_last()), calls.last())
    }
}

/// A terminal records every `set_raw` argument, in order, after those it
/// had already recorded, and is in raw mode exactly when the last call
/// asked for it; nothing else about it changes.
pub proof fn law_raw_calls_record_every_call(m: MemView, calls: Seq<bool>)
    ensures
        after_set_raw_calls(m, calls).raw_calls == m.raw_calls + calls,
        after_set_raw_calls(m, calls).raw == if calls.len() == 0 { m.raw } else { calls.last() },
        after_set_raw_calls(m, calls) == (MemView {
            raw: after_set_raw_calls(m, calls).raw,
            raw_calls: after_set_raw_calls(m, calls).raw_calls,
            ..m
        }),
    decreases calls.len(),
{
    if calls.len() == 0 {
        assert(m.raw_calls + calls =~= m.raw_calls);
    } else {
        law_raw_calls_record_every_call(m, calls.drop_last());
        assert(m.raw_calls + calls.drop_last() + seq![calls.last()] =~= m.raw_calls + calls);
        assert((m.raw_calls + calls.drop_last()).push(calls.last()) =~= m.raw_calls + calls);
    }
}

impl MemTerminal {
    /// A terminal that delivers key presses, like a tty or xterm.js.
    pub fn raw(size: Size) -> (r: Self)
        ensures
            r@ == fresh(size, raw_capabilities()),
    {
        Self::with_capabilities(
            size,
            Capabilities { raw_mode: true, ansi: true, resize_events: true, line_discipline: false },
        )
    }

    /// A terminal that delivers finished lines, like WASI Preview 2.
    pub fn cooked(size: Size) -> (r: Self)
        ensures
            r@ == fresh(size, cooked_capabilities()),
    {
        Self::with_capabilities(
            size,
            Capabilities { raw_mode: false, ansi: false, resize_events: false, line_discipline: true },
        )
    }

    pub fn with_capabilities(size: Size, capabilities: Capabilities) -> (r: Self)
        ensures
            r@ == fresh(size, capabilities),
    {
        let r = Self {
            events: VecDeque::new(),
            output: String::new(),
            size,
            capabilities,
            decoder: AnsiDecoder::new(),
            raw: false,
            raw_calls: Vec::new(),
        };
        assert(r@.events =~= Seq::<EventView>::empty());
        assert(r@.raw_calls =~= Seq::<bool>::empty());
        r
    }

    /// Queue what a terminal would send for `input`, decoded the way the
    /// browser decodes xterm.js: `"ls\x1b[D\r"` is two characters, a Left,
    /// and an Enter.
    pub fn push_input(&mut self, input: &str) -> (r: &mut Self)
        ensures
            *final(self) == *final(r),
            r@ == (MemView {
                events: old(self)@.events + key_events(push_spec(old(self)@.decoder, input@).1),
                decoder: push_spec(old(self)@.decoder, input@).0,
                ..old(self)@
            }),
    {
        let keys = self.decoder.push(input);
        let mut i: usize = 0;
        let ghost start = self@.events;
        while i < keys.len()
            invariant
                i <= keys@.len(),
                self@ == (MemView { events: start + key_events(keys@.take(i as int)), ..self@ }),
                self@.events == start + key_events(keys@.take(i as int)),
                self@.decoder == push_spec(old(self)@.decoder, input@).0,
                keys@ == push_spec(old(self)@.decoder, input@).1,
                self@.output == old(self)@.output,
                self@.size == old(self)@.size,
                self@.capabilities == old(self)@.capabilities,
                self@.raw == old(self)@.raw,
                self@.raw_calls == old(self)@.raw_calls,
                start == old(self)@.events,
            decreases keys@.len() - i,
        {
            let ghost before = self.events@;
            self.events.push_back(Event::Key(keys[i]));
            proof {
                assert(self.events@ == before.push(Event::Key(keys@[i as int])));
                self.lemma_events_push(before, Event::Key(keys@[i as int]));
                assert(keys@.take(i + 1) =~= keys@.take(i as int).push(keys@[i as int]));
                assert(key_events(keys@.take(i + 1)) =~= key_events(keys@.take(i as int)).push(EventView::Key(keys@[i as int])));
                assert(self@.events =~= start + key_events(keys@.take(i + 1)));
            }
            i = i + 1;
        }
        assert(keys@.take(i as int) =~= keys@);
        self
    }

    pub fn push_key(&mut self, key: KeyPress) -> (r: &mut Self)
        ensures
            *final(self) == *final(r),
            r@ == (MemView { events: old(self)@.events.push(EventView::Key(key)), ..old(self)@ }),
    {
        self.events.push_back(Event::Key(key));
        proof { self.lemma_events_push(old(self).events@, Event::Key(key)); }
        self
    }

    pub fn push_line(&mut self, line: &str) -> (r: &mut Self)
        ensures
            *final(self) == *final(r),
            r@ == (MemView { events: old(self)@.events.push(EventView::Line(line@)), ..old(self)@ }),
    {
        let owned = String::from_str(line);
        self.events.push_back(Event::Line(owned));
        proof { self.lemma_events_push(old(self).events@, Event::Line(owned)); }
        self
    }

    /// Queue a resize, and take the new size as this terminal's.
    pub fn push_resize(&mut self, size: Size) -> (r: &mut Self)
        ensures
            *final(self) == *final(r),
            r@ == (MemView { events: old(self)@.events.push(EventView::Resize(size)), size, ..old(self)@ }),
    {
        self.size = size;
        self.events.push_back(Event::Resize(size));
        proof { self.lemma_events_push(old(self).events@, Event::Resize(size)); }
        self
    }

    pub fn push_eof(&mut self) -> (r: &mut Self)
        ensures
            *final(self) == *final(r),
            r@ == (MemView { events: old(self)@.events.push(EventView::Eof), ..old(self)@ }),
    {
        self.events.push_back(Event::Eof);
        proof { self.lemma_events_push(old(self).events@, Event::Eof); }
        self
    }

    proof fn lemma_events_push(&self, before: Seq<Event>, e: Event)
        requires
            self.events@ == before.push(e),
        ensures
            self@.events == before.map_values(|x: Event| x@).push(e@),
    {
        assert(self@.events =~= before.map_values(|x: Event| x@).push(e@));
    }

    /// Everything written so far, escapes included.
    pub fn output(&self) -> (r: &str)
        ensures
            r@ == self@.output,
    {
        self.output.as_str()
    }

    /// Everything written so far, leaving the record empty.
    pub fn take_output(&mut self) -> (r: String)
        ensures
            r@ == old(self)@.output,
            final(self)@ == (MemView { output: Seq::empty(), ..old(self)@ }),
    {
        let mut taken = String::new();
        std::mem::swap(&mut taken, &mut self.output);
        proof {
            assert(self@.output =~= Seq::<char>::empty());
        }
        taken
    }

    /// Whether [`Terminal::set_raw`] was last called with `true`.
    pub fn is_raw(&self) -> (r: bool)
        ensures
            r == self@.raw,
    {
        self.raw
    }

    /// Every [`Terminal::set_raw`] argument, in order: a session that fails
    /// to put the terminal back is worth being able to assert on.
    pub fn raw_calls(&self) -> (r: &[bool])
        ensures
            r@ == self@.raw_calls,
    {
        self.raw_calls.as_slice()
    }

    /// The next scripted event. Running out of script is end of input, not
    /// a hang: a test that forgot an Enter should fail, not block forever.
    pub fn next_event(&mut self) -> (r: Event)
        ensures
            old(self)@.events.len() == 0 ==> r@ == EventView::Eof && final(self)@ == old(self)@,
            old(self)@.events.len() > 0 ==> r@ == old(self)@.events[0]
                && final(self)@ == (MemView { events: old(self)@.events.drop_first(), ..old(self)@ }),
    {
        let ghost before = self.events@;
        match self.events.pop_front() {
            Some(event) => {
                proof {
                    assert(before.len() > 0);
                    assert(self.events@ == before.drop_first());
                    assert(self@.events =~= old(self)@.events.drop_first());
                }
                event
            },
            None => Event::Eof,
        }
    }

    /// Record `text` as written.
    pub fn write(&mut self, text: &str)
        ensures
            final(self)@ == (MemView { output: old(self)@.output + text@, ..old(self)@ }),
    {
        self.output.append(text);
    }

    /// Writing is immediate here, so there is nothing to flush.
    pub fn flush(&mut self)
        ensures
            final(self)@ == old(self)@,
    {
    }
}

impl Terminal for MemTerminal {
    open spec fn reported_capabilities(&self) -> Capabilities {
        self@.capabilities
    }

    fn capabilities(&self) -> (r: Capabilities)
        ensures
            r == self@.capabilities,
    {
        self.capabilities
    }

    fn size(&self) -> (r: Size)
        ensures
            r == self@.size,
    {
        self.size
    }

    fn set_raw(&mut self, enabled: bool) -> (r: Result<()>)
        ensures
            r is Ok,
            final(self)@ == after_set_raw(old(self)@, enabled),
    {
        self.raw = enabled;
        self.raw_calls.push(enabled);
        Ok(())
    }
}

} // verus!
