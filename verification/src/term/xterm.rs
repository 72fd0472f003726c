//! What a browser terminal decides between reads: xterm.js delivers the
//! raw escape stream and reports its size only when asked, so each read
//! first looks for a change of size, then for a key already decoded, and
//! only then waits for more input.

use vstd::prelude::*;
use std::collections::VecDeque;
use crate::decode::{AnsiDecoder, DecoderView, ground, push_spec};
use crate::key::KeyPress;
use crate::term::{Event, EventView, Size};

verus! {

/// The input side of an xterm.js terminal.
#[derive(Debug)]
pub struct XtermInput {
    decoder: AnsiDecoder,
    pending: VecDeque<KeyPress>,
    size: Size,
}

/// The input side as a value.
pub struct XtermView {
    pub decoder: DecoderView,
    pub pending: Seq<KeyPress>,
    pub size: Size,
}

impl View for XtermInput {
    type V = XtermView;

    closed spec fn view(&self) -> XtermView {
        XtermView { decoder: self.decoder@, pending: self.pending@, size: self.size }
    }
}

impl XtermInput {
    /// Input from a terminal that is `size` now, with nothing read yet.
    pub fn new(size: Size) -> (r: Self)
        ensures
            r@ == (XtermView { decoder: ground(), pending: Seq::empty(), size }),
    {
        let r = Self { decoder: AnsiDecoder::new(), pending: VecDeque::new(), size };
        assert(r@.pending =~= Seq::<KeyPress>::empty());
        r
    }

    /// The size last reported.
    pub fn size(&self) -> (r: Size)
        ensures
            r == self@.size,
    {
        self.size
    }

    /// What to report before waiting, given the size the terminal has now:
    /// a change of size first, then the oldest key already decoded. `None`
    /// means there is nothing until more input arrives.
    pub fn poll(&mut self, current: Size) -> (r: Option<Event>)
        ensures
            current != old(self)@.size ==> r == Some(Event::Resize(current))
                && final(self)@ == (XtermView { size: current, ..old(self)@ }),
            current == old(self)@.size && old(self)@.pending.len() > 0 ==> r == Some(Event::Key(old(self)@.pending[0]))
                && final(self)@ == (XtermView { pending: old(self)@.pending.drop_first(), ..old(self)@ }),
            current == old(self)@.size && old(self)@.pending.len() == 0 ==> r is None && final(self)@ == old(self)@,
    {
        if current != self.size {
            self.size = current;
            return Some(Event::Resize(current));
        }
        match self.pending.pop_front() {
            Some(key) => Some(Event::Key(key)),
            None => None,
        }
    }

    /// Decode a chunk of input, queueing the keys it completes.
    pub fn feed(&mut self, chunk: &str)
        ensures
            final(self)@ == (XtermView {
                decoder: push_spec(old(self)@.decoder, chunk@).0,
                pending: old(self)@.pending + push_spec(old(self)@.decoder, chunk@).1,
                ..old(self)@
            }),
    {
        let keys = self.decoder.push(chunk);
        let mut i: usize = 0;
        let ghost start = self.pending@;
        while i < keys.len()
            invariant
                i <= keys@.len(),
                self.pending@ == start + keys@.take(i as int),
                start == old(self)@.pending,
                keys@ == push_spec(old(self)@.decoder, chunk@).1,
                self.decoder@ == push_spec(old(self)@.decoder, chunk@).0,
                self.size == old(self)@.size,
            decreases keys@.len() - i,
        {
            self.pending.push_back(keys[i]);
            i = i + 1;
            assert(self.pending@ =~= start + keys@.take(i as int));
        }
        assert(keys@.take(i as int) =~= keys@);
    }
}

} // verus!
