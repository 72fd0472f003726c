//! Incremental decoder from a terminal's character stream to [`KeyPress`].
//!
//! Feed it whatever arrives, however it is split: state carries across
//! calls, so a sequence delivered in pieces still decodes to one key. A
//! control character's meaning falls out of one rule (`\x01`..`\x1a` is
//! control plus a letter), and partial sequences stay pending until the
//! rest arrives.

use vstd::prelude::*;
use crate::key::{KeyCode, KeyPress, Mods, has_alt, has_shift, mods_of, normal_form, xterm_mods};
use crate::text::chars_of;

verus! {

/// Where the machine is between calls to [`AnsiDecoder::push`].
#[derive(Clone, Copy, PartialEq, Eq, Debug, Structural)]
pub enum State {
    /// Not inside a sequence.
    Ground,
    /// Saw `ESC`.
    Esc,
    /// Saw `ESC [`; collecting parameters.
    Csi,
    /// Saw `ESC O` (application cursor keys).
    Ss3,
}

/// Turns terminal input into key presses, one chunk at a time.
#[derive(Debug)]
pub struct AnsiDecoder {
    state: State,
    params: Vec<u32>,
    current: Option<u32>,
    /// A private CSI (`ESC [ ?` and friends) is a report, not a key; parse
    /// past it and emit nothing.
    private: bool,
}

/// The decoder's state as a value.
pub struct DecoderView {
    pub state: State,
    pub params: Seq<u32>,
    pub current: Option<u32>,
    pub private: bool,
}

impl View for AnsiDecoder {
    type V = DecoderView;

    closed spec fn view(&self) -> DecoderView {
        DecoderView {
            state: self.state,
            params: self.params@,
            current: self.current,
            private: self.private,
        }
    }
}

/// The state of a fresh decoder.
pub open spec fn ground() -> DecoderView {
    DecoderView { state: State::Ground, params: Seq::empty(), current: None, private: false }
}

/// A character outside any escape sequence, with `mods` already held.
///
/// The control range is decoded by rule rather than by table:
/// `\x01`..`\x1a` is control plus the matching letter.
pub open spec fn ground_key_spec(c: char, mods: Mods) -> KeyPress {
    let ctrl = mods_of(has_shift(mods), has_alt(mods), true);
    let key = if c == '\r' || c == '\n' {
        KeyPress { code: KeyCode::Enter, mods }
    } else if c == '\t' {
        KeyPress { code: KeyCode::Tab, mods }
    } else if c == '\x7f' {
        KeyPress { code: KeyCode::Backspace, mods }
    } else if c == '\x08' {
        KeyPress { code: KeyCode::Backspace, mods: ctrl }
    } else if c == '\0' {
        KeyPress { code: KeyCode::Char(' '), mods: ctrl }
    } else if '\x01' <= c && c <= '\x1a' {
        KeyPress { code: KeyCode::Char(((c as u32) + 96) as char), mods: ctrl }
    } else if c == '\x1c' {
        KeyPress { code: KeyCode::Char('\\'), mods: ctrl }
    } else if c == '\x1d' {
        KeyPress { code: KeyCode::Char(']'), mods: ctrl }
    } else if c == '\x1e' {
        KeyPress { code: KeyCode::Char('^'), mods: ctrl }
    } else if c == '\x1f' {
        KeyPress { code: KeyCode::Char('_'), mods: ctrl }
    } else {
        KeyPress { code: KeyCode::Char(c), mods }
    };
    normal_form(key)
}

/// The key of `ESC [ n ~`.
pub open spec fn tilde_spec(param: u32) -> Option<KeyCode> {
    if param == 1 || param == 7 {
        Some(KeyCode::Home)
    } else if param == 2 {
        Some(KeyCode::Insert)
    } else if param == 3 {
        Some(KeyCode::Delete)
    } else if param == 4 || param == 8 {
        Some(KeyCode::End)
    } else if param == 5 {
        Some(KeyCode::PageUp)
    } else if param == 6 {
        Some(KeyCode::PageDown)
    } else if 11 <= param <= 15 {
        Some(KeyCode::F((param - 10) as u8))
    } else if 17 <= param <= 21 {
        Some(KeyCode::F((param - 11) as u8))
    } else if 23 <= param <= 26 {
        Some(KeyCode::F((param - 12) as u8))
    } else {
        None
    }
}

/// The key of `ESC O x`, the application-cursor-key form.
pub open spec fn ss3_spec(c: char) -> Option<KeyCode> {
    if c == 'A' {
        Some(KeyCode::Up)
    } else if c == 'B' {
        Some(KeyCode::Down)
    } else if c == 'C' {
        Some(KeyCode::Right)
    } else if c == 'D' {
        Some(KeyCode::Left)
    } else if c == 'H' {
        Some(KeyCode::Home)
    } else if c == 'F' {
        Some(KeyCode::End)
    } else if c == 'P' {
        Some(KeyCode::F(1))
    } else if c == 'Q' {
        Some(KeyCode::F(2))
    } else if c == 'R' {
        Some(KeyCode::F(3))
    } else if c == 'S' {
        Some(KeyCode::F(4))
    } else {
        None
    }
}

/// The key of `ESC [ params final`, if it names one.
pub open spec fn csi_spec(final_char: char, params: Seq<u32>) -> Option<KeyPress> {
    let first: u32 = if params.len() > 0 { params[0] } else { 0 };
    if final_char == 'Z' {
        Some(KeyPress { code: KeyCode::Tab, mods: Mods::SHIFT })
    } else {
        let code: Option<KeyCode> = if final_char == '~' || final_char == '^' || final_char
            == '$' {
            tilde_spec(first)
        } else if final_char == 'A' || final_char == 'B' || final_char == 'C' || final_char == 'D'
            || final_char == 'H' || final_char == 'F' || final_char == 'P' || final_char == 'Q'
            || final_char == 'R' || final_char == 'S' {
            ss3_spec(final_char)
        } else {
            None
        };
        let arrow = final_char == 'A' || final_char == 'B' || final_char == 'C' || final_char
            == 'D';
        let mods = if final_char == '^' {
            Mods::CTRL
        } else if final_char == '$' {
            Mods::SHIFT
        } else if params.len() > 1 {
            xterm_mods(params[1])
        } else if arrow && 2 <= first <= 8 {
            xterm_mods(first)
        } else {
            Mods::NONE
        };
        match code {
            Some(code) => Some(KeyPress { code, mods }),
            None => None,
        }
    }
}

/// The parameter accumulated so far with decimal digit `d` appended, in
/// `u32` arithmetic that wraps on overflow.
pub open spec fn push_digit(current: Option<u32>, d: u32) -> u32 {
    let cur: u32 = match current {
        Some(v) => v,
        None => 0,
    };
    vstd::wrapping::u32_specs::wrapping_add(vstd::wrapping::u32_specs::wrapping_mul(cur, 10), d)
}

/// What reading one character does: the next state and the keys it
/// completes (none or one).
pub open spec fn step_spec(d: DecoderView, c: char) -> (DecoderView, Seq<KeyPress>) {
    match d.state {
        State::Ground => if c == '\x1b' {
            (DecoderView { state: State::Esc, ..d }, Seq::empty())
        } else {
            (d, seq![ground_key_spec(c, Mods::NONE)])
        },
        State::Esc => if c == '[' {
            (DecoderView { state: State::Csi, params: Seq::empty(), current: None, private: false }, Seq::empty())
        } else if c == 'O' {
            (DecoderView { state: State::Ss3, ..d }, Seq::empty())
        } else if c == '\x1b' {
            (d, seq![KeyPress { code: KeyCode::Escape, mods: Mods::NONE }])
        } else {
            (DecoderView { state: State::Ground, ..d }, seq![ground_key_spec(c, Mods::ALT)])
        },
        State::Csi => if '0' <= c && c <= '9' {
            (DecoderView { current: Some(push_digit(d.current, (c as u32 - '0' as u32) as u32)), ..d }, Seq::empty())
        } else if c == ';' || c == ':' {
            let p: u32 = match d.current {
                Some(v) => v,
                None => 0,
            };
            (DecoderView { params: d.params.push(p), current: None, ..d }, Seq::empty())
        } else if c == '<' || c == '=' || c == '>' || c == '?' {
            (DecoderView { private: true, ..d }, Seq::empty())
        } else if c == '$' || ('\u{40}' <= c && c <= '\u{7e}') {
            let params = match d.current {
                Some(v) => d.params.push(v),
                None => d.params,
            };
            let keys = if d.private {
                Seq::empty()
            } else {
                match csi_spec(c, params) {
                    Some(k) => seq![normal_form(k)],
                    None => Seq::empty(),
                }
            };
            (ground(), keys)
        } else {
            (d, Seq::empty())
        },
        State::Ss3 => {
            let keys = match ss3_spec(c) {
                Some(code) => seq![KeyPress { code, mods: Mods::NONE }],
                None => Seq::empty(),
            };
            (DecoderView { state: State::Ground, ..d }, keys)
        },
    }
}

/// Reading `input` one character after another from state `d`.
pub open spec fn run_spec(d: DecoderView, input: Seq<char>) -> (DecoderView, Seq<KeyPress>)
    decreases input.len(),
{
    if input.len() == 0 {
        (d, Seq::empty())
    } else {
        let (before, keys) = run_spec(d, input.drop_last());
        let (after, more) = step_spec(before, input.last());
        (after, keys + more)
    }
}

/// What `push` does: read the chunk, then take a bare `ESC` left pending
/// at its end as the Escape key.
pub open spec fn push_spec(d: DecoderView, chunk: Seq<char>) -> (DecoderView, Seq<KeyPress>) {
    let (after, keys) = run_spec(d, chunk);
    if after.state == State::Esc {
        (DecoderView { state: State::Ground, ..after }, keys.push(KeyPress { code: KeyCode::Escape, mods: Mods::NONE }))
    } else {
        (after, keys)
    }
}

/// Reading two pieces one after the other is reading them joined.
pub proof fn lemma_run_concat(d: DecoderView, a: Seq<char>, b: Seq<char>)
    ensures
        run_spec(d, a + b) == (run_spec(run_spec(d, a).0, b).0, run_spec(d, a).1 + run_spec(run_spec(d, a).0, b).1),
    decreases b.len(),
{
    if b.len() == 0 {
        assert(a + b =~= a);
        assert(run_spec(d, a).1 + Seq::<KeyPress>::empty() =~= run_spec(d, a).1);
    } else {
        assert((a + b).drop_last() =~= a + b.drop_last());
        assert((a + b).last() == b.last());
        lemma_run_concat(d, a, b.drop_last());
        let mid = run_spec(d, a);
        let rb = run_spec(mid.0, b.drop_last());
        let st = step_spec(rb.0, b.last());
        assert(mid.1 + rb.1 + st.1 =~= mid.1 + (rb.1 + st.1));
    }
}

/// A sequence split across chunks still decodes: when the first chunk does
/// not end on a bare `ESC`, pushing the two chunks in turn gives the same
/// keys, and leaves the same state, as pushing them joined.
pub proof fn law_split_chunks_decode_as_one(d: DecoderView, a: Seq<char>, b: Seq<char>)
    requires
        run_spec(d, a).0.state != State::Esc,
    ensures
        push_spec(d, a).0 == run_spec(d, a).0,
        push_spec(push_spec(d, a).0, b).0 == push_spec(d, a + b).0,
        push_spec(d, a).1 + push_spec(push_spec(d, a).0, b).1 == push_spec(d, a + b).1,
{
    lemma_run_concat(d, a, b);
    let mid = run_spec(d, a);
    let rb = run_spec(mid.0, b);
    if rb.0.state == State::Esc {
        assert(mid.1 + rb.1.push(KeyPress { code: KeyCode::Escape, mods: Mods::NONE }) =~= (mid.1
            + rb.1).push(KeyPress { code: KeyCode::Escape, mods: Mods::NONE }));
    }
}

/// The control range decodes by one rule: a byte from `\x01` to `\x1a`
/// that is not Tab, Enter or Backspace is control plus the matching
/// letter, alone in its chunk as anywhere else.
pub proof fn law_control_range_is_ctrl_plus_letter(c: char)
    requires
        '\x01' <= c <= '\x1a',
        c != '\t',
        c != '\n',
        c != '\r',
        c != '\x08',
    ensures
        push_spec(ground(), seq![c]) == (ground(), seq![KeyPress { code: KeyCode::Char(((c as u32) + 96) as char), mods: Mods::CTRL }]),
{
    let s = seq![c];
    assert(s.drop_last() =~= Seq::<char>::empty());
    assert(s.last() == c);
    let letter = ((c as u32) + 96) as char;
    assert('a' <= letter <= 'z');
    assert(mods_of(false, false, true) == Mods::CTRL);
    crate::key::lemma_mods_of_flags(false, false, true);
    assert(!has_shift(Mods::NONE) && !has_alt(Mods::NONE));
    let raw = KeyPress { code: KeyCode::Char(letter), mods: mods_of(false, false, true) };
    assert(crate::key::ascii_lower(letter) == letter);
    assert(normal_form(raw) == raw);
    assert(ground_key_spec(c, Mods::NONE) == raw);
    assert(step_spec(ground(), c) == (ground(), seq![raw]));
    assert(run_spec(ground(), s.drop_last()) == (ground(), Seq::<KeyPress>::empty()));
    assert(Seq::<KeyPress>::empty() + seq![raw] =~= seq![raw]);
    assert(run_spec(ground(), s) == (ground(), seq![raw]));
}

fn ground_key(c: char, mods: Mods) -> (r: KeyPress)
    ensures
        r == ground_key_spec(c, mods),
{
    let ctrl = mods.union(Mods::CTRL);
    let key = if c == '\r' || c == '\n' {
        KeyPress::new(KeyCode::Enter, mods)
    } else if c == '\t' {
        KeyPress::new(KeyCode::Tab, mods)
    } else if c == '\x7f' {
        KeyPress::new(KeyCode::Backspace, mods)
    } else if c == '\x08' {
        KeyPress::new(KeyCode::Backspace, ctrl)
    } else if c == '\0' {
        KeyPress::new(KeyCode::Char(' '), ctrl)
    } else if '\x01' <= c && c <= '\x1a' {
        KeyPress::new(KeyCode::Char(((c as u8) + 96) as char), ctrl)
    } else if c == '\x1c' {
        KeyPress::new(KeyCode::Char('\\'), ctrl)
    } else if c == '\x1d' {
        KeyPress::new(KeyCode::Char(']'), ctrl)
    } else if c == '\x1e' {
        KeyPress::new(KeyCode::Char('^'), ctrl)
    } else if c == '\x1f' {
        KeyPress::new(KeyCode::Char('_'), ctrl)
    } else {
        KeyPress::new(KeyCode::Char(c), mods)
    };
    key.normalized()
}

fn tilde_code(param: u32) -> (r: Option<KeyCode>)
    ensures
        r == tilde_spec(param),
{
    if param == 1 || param == 7 {
        Some(KeyCode::Home)
    } else if param == 2 {
        Some(KeyCode::Insert)
    } else if param == 3 {
        Some(KeyCode::Delete)
    } else if param == 4 || param == 8 {
        Some(KeyCode::End)
    } else if param == 5 {
        Some(KeyCode::PageUp)
    } else if param == 6 {
        Some(KeyCode::PageDown)
    } else if 11 <= param && param <= 15 {
        Some(KeyCode::F((param - 10) as u8))
    } else if 17 <= param && param <= 21 {
        Some(KeyCode::F((param - 11) as u8))
    } else if 23 <= param && param <= 26 {
        Some(KeyCode::F((param - 12) as u8))
    } else {
        None
    }
}

fn ss3_dispatch(c: char) -> (r: Option<KeyCode>)
    ensures
        r == ss3_spec(c),
{
    if c == 'A' {
        Some(KeyCode::Up)
    } else if c == 'B' {
        Some(KeyCode::Down)
    } else if c == 'C' {
        Some(KeyCode::Right)
    } else if c == 'D' {
        Some(KeyCode::Left)
    } else if c == 'H' {
        Some(KeyCode::Home)
    } else if c == 'F' {
        Some(KeyCode::End)
    } else if c == 'P' {
        Some(KeyCode::F(1))
    } else if c == 'Q' {
        Some(KeyCode::F(2))
    } else if c == 'R' {
        Some(KeyCode::F(3))
    } else if c == 'S' {
        Some(KeyCode::F(4))
    } else {
        None
    }
}

fn csi_dispatch(final_char: char, params: &Vec<u32>) -> (r: Option<KeyPress>)
    ensures
        r == csi_spec(final_char, params@),
{
    let first: u32 = if params.len() > 0 { params[0] } else { 0 };
    if final_char == 'Z' {
        return Some(KeyPress::new(KeyCode::Tab, Mods::SHIFT));
    }
    let code = if final_char == '~' || final_char == '^' || final_char == '$' {
        tilde_code(first)
    } else if final_char == 'A' || final_char == 'B' || final_char == 'C' || final_char == 'D'
        || final_char == 'H' || final_char == 'F' || final_char == 'P' || final_char == 'Q'
        || final_char == 'R' || final_char == 'S' {
        ss3_dispatch(final_char)
    } else {
        None
    };
    let arrow = final_char == 'A' || final_char == 'B' || final_char == 'C' || final_char == 'D';
    let mods = if final_char == '^' {
        Mods::CTRL
    } else if final_char == '$' {
        Mods::SHIFT
    } else if params.len() > 1 {
        Mods::from_xterm_param(params[1])
    } else if arrow && 2 <= first && first <= 8 {
        Mods::from_xterm_param(first)
    } else {
        Mods::NONE
    };
    match code {
        Some(code) => Some(KeyPress::new(code, mods)),
        None => None,
    }
}

impl AnsiDecoder {
    pub fn new() -> (r: Self)
        ensures
            r@ == ground(),
    {
        Self { state: State::Ground, params: Vec::new(), current: None, private: false }
    }

    /// Decode `chunk`, returning the keys it completed.
    ///
    /// A chunk that ends mid-sequence leaves the decoder pending: the keys
    /// come out of a later `push`. The one exception is a chunk ending in a
    /// bare `ESC`, which is reported as the Escape key: a terminal delivers a
    /// sequence as one write, so an `ESC` alone at the end of a write is the
    /// key itself.
    pub fn push(&mut self, chunk: &str) -> (keys: Vec<KeyPress>)
        ensures
            (final(self)@, keys@) == push_spec(old(self)@, chunk@),
    {
        let input = chars_of(chunk);
        let mut keys: Vec<KeyPress> = Vec::new();
        let mut i: usize = 0;
        assert(input@.take(0) =~= Seq::<char>::empty());
        while i < input.len()
            invariant
                i <= input@.len(),
                (self@, keys@) == run_spec(old(self)@, input@.take(i as int)),
            decreases input@.len() - i,
        {
            let c = input[i];
            let ghost before = self@;
            let ghost before_keys = keys@;
            self.step(c, &mut keys);
            proof {
                assert(input@.take(i + 1).drop_last() =~= input@.take(i as int));
                assert(input@.take(i + 1).last() == c);
            }
            i = i + 1;
        }
        assert(input@.take(i as int) =~= chunk@);
        if self.state == State::Esc {
            self.state = State::Ground;
            keys.push(KeyPress::plain(KeyCode::Escape));
        }
        keys
    }

    /// Resolve a pending bare `ESC` into the Escape key, discarding any
    /// half-read sequence.
    pub fn flush(&mut self) -> (keys: Vec<KeyPress>)
        ensures
            final(self)@ == ground(),
            keys@ == (if old(self)@.state == State::Esc {
                seq![KeyPress { code: KeyCode::Escape, mods: Mods::NONE }]
            } else {
                Seq::empty()
            }),
    {
        let pending = self.state == State::Esc;
        self.reset();
        let mut keys = Vec::new();
        if pending {
            keys.push(KeyPress::plain(KeyCode::Escape));
        }
        keys
    }

    /// Drop any partial sequence and return to the ground state.
    pub fn reset(&mut self)
        ensures
            final(self)@ == ground(),
    {
        self.state = State::Ground;
        self.params.clear();
        self.current = None;
        self.private = false;
    }

    fn step(&mut self, c: char, keys: &mut Vec<KeyPress>)
        ensures
            (final(self)@, final(keys)@) == (step_spec(old(self)@, c).0, old(keys)@ + step_spec(old(self)@, c).1),
    {
        let ghost d = self@;
        match self.state {
            State::Ground => {
                if c == '\x1b' {
                    self.state = State::Esc;
                } else {
                    keys.push(ground_key(c, Mods::NONE));
                }
            },
            State::Esc => {
                if c == '[' {
                    self.state = State::Csi;
                    self.params.clear();
                    self.current = None;
                    self.private = false;
                } else if c == 'O' {
                    self.state = State::Ss3;
                } else if c == '\x1b' {
                    keys.push(KeyPress::plain(KeyCode::Escape));
                } else {
                    self.state = State::Ground;
                    keys.push(ground_key(c, Mods::ALT));
                }
            },
            State::Csi => {
                if '0' <= c && c <= '9' {
                    let digit = (c as u32) - ('0' as u32);
                    let cur: u32 = match self.current {
                        Some(v) => v,
                        None => 0,
                    };
                    self.current = Some(cur.wrapping_mul(10).wrapping_add(digit));
                } else if c == ';' || c == ':' {
                    let p: u32 = match self.current {
                        Some(v) => v,
                        None => 0,
                    };
                    self.params.push(p);
                    self.current = None;
                } else if c == '<' || c == '=' || c == '>' || c == '?' {
                    self.private = true;
                } else if c == '$' || ('\u{40}' <= c && c <= '\u{7e}') {
                    self.finish_csi(c, keys);
                }
            },
            State::Ss3 => {
                self.state = State::Ground;
                match ss3_dispatch(c) {
                    Some(code) => keys.push(KeyPress::plain(code)),
                    None => {},
                }
            },
        }
        proof {
            let (after, more) = step_spec(d, c);
            assert(keys@ =~= old(keys)@ + more);
            assert(self@.params =~= after.params);
        }
    }

    fn finish_csi(&mut self, final_char: char, keys: &mut Vec<KeyPress>)
        requires
            old(self).state == State::Csi,
        ensures
            final(self)@ == ground(),
            final(keys)@ == old(keys)@ + (if old(self).private {
                Seq::empty()
            } else {
                match csi_spec(final_char, match old(self).current {
                    Some(v) => old(self).params@.push(v),
                    None => old(self).params@,
                }) {
                    Some(k) => seq![normal_form(k)],
                    None => Seq::empty(),
                }
            }),
    {
        match self.current {
            Some(p) => self.params.push(p),
            None => {},
        }
        self.current = None;
        let private = self.private;
        self.state = State::Ground;
        self.private = false;
        if !private {
            match csi_dispatch(final_char, &self.params) {
                Some(key) => keys.push(key.normalized()),
                None => {},
            }
        }
        self.params.clear();
        proof {
            assert(self.params@ =~= Seq::<u32>::empty());
        }
    }
}

/// Text with no escape and no control character in it.
pub open spec fn plain_text(s: Seq<char>) -> bool {
    forall|i: int| 0 <= i < s.len() ==> '\x1f' < #[trigger] s[i] && s[i] != '\x7f'
}

/// Each char of `s` as the key that types it.
pub open spec fn char_keys(s: Seq<char>) -> Seq<KeyPress>
    decreases s.len(),
{
    if s.len() == 0 {
        Seq::empty()
    } else {
        char_keys(s.drop_last()).push(KeyPress { code: KeyCode::Char(s.last()), mods: Mods::NONE })
    }
}

/// A new decoder types printable text one char key per char, in any
/// script, and is left with nothing pending.
pub proof fn law_plain_text_is_typed(s: Seq<char>)
    requires
        plain_text(s),
    ensures
        run_spec(ground(), s) == (ground(), char_keys(s)),
        push_spec(ground(), s) == (ground(), char_keys(s)),
    decreases s.len(),
{
    if s.len() > 0 {
        let init = s.drop_last();
        assert forall|i: int| 0 <= i < init.len() implies '\x1f' < #[trigger] init[i] && init[i] != '\x7f' by {
            assert(init[i] == s[i]);
        }
        law_plain_text_is_typed(init);
        let c = s.last();
        assert('\x1f' < s[s.len() - 1] && s[s.len() - 1] != '\x7f');
        assert(char_keys(init) + seq![KeyPress { code: KeyCode::Char(c), mods: Mods::NONE }] =~= char_keys(s));
    } else {

    }
}

/// `ESC [ d final`, a CSI sequence with one single-digit parameter.
pub open spec fn csi_with_digit(d: char, final_char: char) -> Seq<char> {
    seq!['\x1b', '[', d, final_char]
}

/// Reading `ESC [ d final` from a decoder between sequences: the sequence
/// is read whole, the decoder is back between sequences, and the key is the
/// one CSI `final` with that parameter names, if any.
proof fn lemma_csi_with_digit(d: DecoderView, digit: char, final_char: char)
    requires
        d.state == State::Ground,
        '0' <= digit <= '9',
        final_char == '~' || final_char == 'A' || final_char == 'B' || final_char == 'C' || final_char == 'D'
            || final_char == 'H' || final_char == 'F',
    ensures
        run_spec(d, csi_with_digit(digit, final_char)) == (ground(), match csi_spec(final_char, seq![(digit as u32 - '0' as u32) as u32]) {
            Some(k) => seq![normal_form(k)],
            None => Seq::<KeyPress>::empty(),
        }),
{
    let s = csi_with_digit(digit, final_char);
    let n = (digit as u32 - '0' as u32) as u32;
    assert(vstd::wrapping::u32_specs::wrapping_mul(0u32, 10u32) == 0u32) by {
        reveal(vstd::wrapping::u32_specs::wrapping_mul);
    }
    assert(vstd::wrapping::u32_specs::wrapping_add(0u32, n) == n) by {
        reveal(vstd::wrapping::u32_specs::wrapping_add);
    }
    assert(s.drop_last().drop_last().drop_last().drop_last() =~= Seq::<char>::empty());
    assert(s.drop_last().drop_last().drop_last() =~= seq!['\x1b']);
    assert(s.drop_last().drop_last() =~= seq!['\x1b', '[']);
    assert(s.drop_last() =~= seq!['\x1b', '[', digit]);
    reveal_with_fuel(run_spec, 5);
    assert(Seq::<u32>::empty().push(n) =~= seq![n]);
}

/// The editing keys xterm sends as `ESC [ n ~` decode to the keys they
/// name, from any point between sequences, with no modifier: 1 and 7 are
/// Home, 2 Insert, 3 Delete, 4 and 8 End, 5 Page Up and 6 Page Down.
pub proof fn law_tilde_keys_decode_to_the_keys_they_name(d: DecoderView)
    requires
        d.state == State::Ground,
    ensures
        run_spec(d, csi_with_digit('1', '~')) == (ground(), seq![KeyPress { code: KeyCode::Home, mods: Mods::NONE }]),
        run_spec(d, csi_with_digit('2', '~')) == (ground(), seq![KeyPress { code: KeyCode::Insert, mods: Mods::NONE }]),
        run_spec(d, csi_with_digit('3', '~')) == (ground(), seq![KeyPress { code: KeyCode::Delete, mods: Mods::NONE }]),
        run_spec(d, csi_with_digit('4', '~')) == (ground(), seq![KeyPress { code: KeyCode::End, mods: Mods::NONE }]),
        run_spec(d, csi_with_digit('5', '~')) == (ground(), seq![KeyPress { code: KeyCode::PageUp, mods: Mods::NONE }]),
        run_spec(d, csi_with_digit('6', '~')) == (ground(), seq![KeyPress { code: KeyCode::PageDown, mods: Mods::NONE }]),
        run_spec(d, csi_with_digit('7', '~')) == (ground(), seq![KeyPress { code: KeyCode::Home, mods: Mods::NONE }]),
        run_spec(d, csi_with_digit('8', '~')) == (ground(), seq![KeyPress { code: KeyCode::End, mods: Mods::NONE }]),
{
    lemma_csi_with_digit(d, '1', '~');
    lemma_csi_with_digit(d, '2', '~');
    lemma_csi_with_digit(d, '3', '~');
    lemma_csi_with_digit(d, '4', '~');
    lemma_csi_with_digit(d, '5', '~');
    lemma_csi_with_digit(d, '6', '~');
    lemma_csi_with_digit(d, '7', '~');
    lemma_csi_with_digit(d, '8', '~');
}

/// Typing, then Page Up or Page Down: whatever printable text comes
/// first is typed char by char, and the page key follows it, with the
/// decoder left between sequences.
pub proof fn law_text_then_a_page_key(t: Seq<char>)
    requires
        plain_text(t),
    ensures
        push_spec(ground(), t + csi_with_digit('5', '~'))
            == (ground(), char_keys(t).push(KeyPress { code: KeyCode::PageUp, mods: Mods::NONE })),
        push_spec(ground(), t + csi_with_digit('6', '~'))
            == (ground(), char_keys(t).push(KeyPress { code: KeyCode::PageDown, mods: Mods::NONE })),
{
    law_plain_text_is_typed(t);
    law_tilde_keys_decode_to_the_keys_they_name(ground());
    lemma_run_concat(ground(), t, csi_with_digit('5', '~'));
    lemma_run_concat(ground(), t, csi_with_digit('6', '~'));
    assert(char_keys(t) + seq![KeyPress { code: KeyCode::PageUp, mods: Mods::NONE }]
        =~= char_keys(t).push(KeyPress { code: KeyCode::PageUp, mods: Mods::NONE }));
    assert(char_keys(t) + seq![KeyPress { code: KeyCode::PageDown, mods: Mods::NONE }]
        =~= char_keys(t).push(KeyPress { code: KeyCode::PageDown, mods: Mods::NONE }));
}

/// `ESC lead final`: a sequence with no parameter (`lead` is `[` or `O`).
pub open spec fn bare_sequence(lead: char, final_char: char) -> Seq<char> {
    seq!['\x1b', lead, final_char]
}

/// The cursor keys, in both forms a terminal sends them (`ESC [ x` and,
/// in application mode, `ESC O x`), decode from any point between sequences
/// to the keys they name, with no modifier, and leave the decoder between
/// sequences: A up, B down, C right, D left, H Home and F End.
pub proof fn law_cursor_keys_decode_to_the_keys_they_name(d: DecoderView)
    requires
        d.state == State::Ground,
    ensures
        run_spec(d, bare_sequence('[', 'A')).1 == seq![KeyPress { code: KeyCode::Up, mods: Mods::NONE }],
        run_spec(d, bare_sequence('[', 'A')).0.state == State::Ground,
        run_spec(d, bare_sequence('[', 'B')).1 == seq![KeyPress { code: KeyCode::Down, mods: Mods::NONE }],
        run_spec(d, bare_sequence('[', 'B')).0.state == State::Ground,
        run_spec(d, bare_sequence('[', 'C')).1 == seq![KeyPress { code: KeyCode::Right, mods: Mods::NONE }],
        run_spec(d, bare_sequence('[', 'C')).0.state == State::Ground,
        run_spec(d, bare_sequence('[', 'D')).1 == seq![KeyPress { code: KeyCode::Left, mods: Mods::NONE }],
        run_spec(d, bare_sequence('[', 'D')).0.state == State::Ground,
        run_spec(d, bare_sequence('[', 'H')).1 == seq![KeyPress { code: KeyCode::Home, mods: Mods::NONE }],
        run_spec(d, bare_sequence('[', 'H')).0.state == State::Ground,
        run_spec(d, bare_sequence('[', 'F')).1 == seq![KeyPress { code: KeyCode::End, mods: Mods::NONE }],
        run_spec(d, bare_sequence('[', 'F')).0.state == State::Ground,
        run_spec(d, bare_sequence('O', 'A')).1 == seq![KeyPress { code: KeyCode::Up, mods: Mods::NONE }],
        run_spec(d, bare_sequence('O', 'A')).0.state == State::Ground,
        run_spec(d, bare_sequence('O', 'B')).1 == seq![KeyPress { code: KeyCode::Down, mods: Mods::NONE }],
        run_spec(d, bare_sequence('O', 'B')).0.state == State::Ground,
        run_spec(d, bare_sequence('O', 'C')).1 == seq![KeyPress { code: KeyCode::Right, mods: Mods::NONE }],
        run_spec(d, bare_sequence('O', 'C')).0.state == State::Ground,
        run_spec(d, bare_sequence('O', 'D')).1 == seq![KeyPress { code: KeyCode::Left, mods: Mods::NONE }],
        run_spec(d, bare_sequence('O', 'D')).0.state == State::Ground,
        run_spec(d, bare_sequence('O', 'H')).1 == seq![KeyPress { code: KeyCode::Home, mods: Mods::NONE }],
        run_spec(d, bare_sequence('O', 'H')).0.state == State::Ground,
        run_spec(d, bare_sequence('O', 'F')).1 == seq![KeyPress { code: KeyCode::End, mods: Mods::NONE }],
        run_spec(d, bare_sequence('O', 'F')).0.state == State::Ground,
{
    lemma_bare_sequence(d, '[', 'A');
    lemma_bare_sequence(d, '[', 'B');
    lemma_bare_sequence(d, '[', 'C');
    lemma_bare_sequence(d, '[', 'D');
    lemma_bare_sequence(d, '[', 'H');
    lemma_bare_sequence(d, '[', 'F');
    lemma_bare_sequence(d, 'O', 'A');
    lemma_bare_sequence(d, 'O', 'B');
    lemma_bare_sequence(d, 'O', 'C');
    lemma_bare_sequence(d, 'O', 'D');
    lemma_bare_sequence(d, 'O', 'H');
    lemma_bare_sequence(d, 'O', 'F');
}

proof fn lemma_bare_sequence(d: DecoderView, lead: char, final_char: char)
    requires
        d.state == State::Ground,
        lead == '[' || lead == 'O',
    ensures
        run_spec(d, bare_sequence(lead, final_char)) == run_spec(step_spec(step_spec(d, '\x1b').0, lead).0, seq![final_char]),
        run_spec(step_spec(step_spec(d, '\x1b').0, lead).0, seq![final_char]) == step_spec(step_spec(step_spec(d, '\x1b').0, lead).0, final_char),
{
    let s = bare_sequence(lead, final_char);
    assert(s.drop_last().drop_last().drop_last() =~= Seq::<char>::empty());
    assert(s.drop_last().drop_last() =~= seq!['\x1b']);
    assert(s.drop_last() =~= seq!['\x1b', lead]);
    assert(seq![final_char].drop_last() =~= Seq::<char>::empty());
    reveal_with_fuel(run_spec, 4);
    assert(Seq::<KeyPress>::empty() + Seq::<KeyPress>::empty() =~= Seq::<KeyPress>::empty());
}

/// The keys a terminal sends as one byte decode, from any point between
/// sequences, to the keys they are: carriage return and line feed are
/// Enter, tab is Tab, DEL is Backspace and backspace (`^H`) Ctrl+Backspace;
/// and two escapes in a row are the Escape key.
pub proof fn law_single_byte_keys(d: DecoderView)
    requires
        d.state == State::Ground,
    ensures
        run_spec(d, seq!['\r']).1 == seq![KeyPress { code: KeyCode::Enter, mods: Mods::NONE }],
        run_spec(d, seq!['\n']).1 == seq![KeyPress { code: KeyCode::Enter, mods: Mods::NONE }],
        run_spec(d, seq!['\t']).1 == seq![KeyPress { code: KeyCode::Tab, mods: Mods::NONE }],
        run_spec(d, seq!['\x7f']).1 == seq![KeyPress { code: KeyCode::Backspace, mods: Mods::NONE }],
        run_spec(d, seq!['\x08']).1 == seq![KeyPress { code: KeyCode::Backspace, mods: Mods::CTRL }],
        run_spec(d, seq!['\x1b', '\x1b']).1 == seq![KeyPress { code: KeyCode::Escape, mods: Mods::NONE }],
{
    reveal_with_fuel(run_spec, 3);
    assert(seq!['\r'].drop_last() =~= Seq::<char>::empty());
    assert(seq!['\n'].drop_last() =~= Seq::<char>::empty());
    assert(seq!['\t'].drop_last() =~= Seq::<char>::empty());
    assert(seq!['\x7f'].drop_last() =~= Seq::<char>::empty());
    assert(seq!['\x08'].drop_last() =~= Seq::<char>::empty());
    assert(seq!['\x1b', '\x1b'].drop_last() =~= seq!['\x1b']);
    assert(seq!['\x1b'].drop_last() =~= Seq::<char>::empty());
    assert(Seq::<KeyPress>::empty() + seq![KeyPress { code: KeyCode::Enter, mods: Mods::NONE }] =~= seq![KeyPress { code: KeyCode::Enter, mods: Mods::NONE }]);
    assert(Seq::<KeyPress>::empty() + seq![KeyPress { code: KeyCode::Tab, mods: Mods::NONE }] =~= seq![KeyPress { code: KeyCode::Tab, mods: Mods::NONE }]);
    assert(Seq::<KeyPress>::empty() + seq![KeyPress { code: KeyCode::Backspace, mods: Mods::NONE }] =~= seq![KeyPress { code: KeyCode::Backspace, mods: Mods::NONE }]);
    assert(Seq::<KeyPress>::empty() + seq![KeyPress { code: KeyCode::Backspace, mods: Mods::CTRL }] =~= seq![KeyPress { code: KeyCode::Backspace, mods: Mods::CTRL }]);
    assert(Seq::<KeyPress>::empty() + seq![KeyPress { code: KeyCode::Escape, mods: Mods::NONE }] =~= seq![KeyPress { code: KeyCode::Escape, mods: Mods::NONE }]);
}

/// Reading `ESC [ d1 d2 ~` from a decoder between sequences: the key the
/// two-digit parameter names.
proof fn lemma_csi_two_digits(d: DecoderView, d1: char, d2: char)
    requires
        d.state == State::Ground,
        '0' <= d1 <= '9',
        '0' <= d2 <= '9',
    ensures
        run_spec(d, seq!['\x1b', '[', d1, d2, '~']) == (ground(), match csi_spec('~', seq![((d1 as u32 - '0' as u32) * 10 + (d2 as u32 - '0' as u32)) as u32]) {
            Some(k) => seq![normal_form(k)],
            None => Seq::<KeyPress>::empty(),
        }),
{
    let s = seq!['\x1b', '[', d1, d2, '~'];
    let n1 = (d1 as u32 - '0' as u32) as u32;
    let n2 = (d2 as u32 - '0' as u32) as u32;
    assert(vstd::wrapping::u32_specs::wrapping_mul(0u32, 10u32) == 0u32) by {
        reveal(vstd::wrapping::u32_specs::wrapping_mul);
    }
    assert(vstd::wrapping::u32_specs::wrapping_add(0u32, n1) == n1) by {
        reveal(vstd::wrapping::u32_specs::wrapping_add);
    }
    assert(vstd::wrapping::u32_specs::wrapping_mul(n1, 10u32) == n1 * 10) by {
        reveal(vstd::wrapping::u32_specs::wrapping_mul);
    }
    assert(vstd::wrapping::u32_specs::wrapping_add((n1 * 10) as u32, n2) == n1 * 10 + n2) by {
        reveal(vstd::wrapping::u32_specs::wrapping_add);
    }
    assert(s.drop_last().drop_last().drop_last().drop_last().drop_last() =~= Seq::<char>::empty());
    assert(s.drop_last().drop_last().drop_last().drop_last() =~= seq!['\x1b']);
    assert(s.drop_last().drop_last().drop_last() =~= seq!['\x1b', '[']);
    assert(s.drop_last().drop_last() =~= seq!['\x1b', '[', d1]);
    assert(s.drop_last() =~= seq!['\x1b', '[', d1, d2]);
    reveal_with_fuel(run_spec, 6);
    assert(Seq::<u32>::empty().push((n1 * 10 + n2) as u32) =~= seq![(n1 * 10 + n2) as u32]);
}

/// The function keys xterm sends as `ESC [ n ~` decode, from any point
/// between sequences, to the keys they are: 11 to 15 are F1 to F5, 17 to 21
/// F6 to F10, and 23 and 24 F11 and F12.
pub proof fn law_function_keys_decode_to_their_numbers(d: DecoderView)
    requires
        d.state == State::Ground,
    ensures
        run_spec(d, seq!['\x1b', '[', '1', '1', '~']) == (ground(), seq![KeyPress { code: KeyCode::F(1), mods: Mods::NONE }]),
        run_spec(d, seq!['\x1b', '[', '1', '2', '~']) == (ground(), seq![KeyPress { code: KeyCode::F(2), mods: Mods::NONE }]),
        run_spec(d, seq!['\x1b', '[', '1', '3', '~']) == (ground(), seq![KeyPress { code: KeyCode::F(3), mods: Mods::NONE }]),
        run_spec(d, seq!['\x1b', '[', '1', '4', '~']) == (ground(), seq![KeyPress { code: KeyCode::F(4), mods: Mods::NONE }]),
        run_spec(d, seq!['\x1b', '[', '1', '5', '~']) == (ground(), seq![KeyPress { code: KeyCode::F(5), mods: Mods::NONE }]),
        run_spec(d, seq!['\x1b', '[', '1', '7', '~']) == (ground(), seq![KeyPress { code: KeyCode::F(6), mods: Mods::NONE }]),
        run_spec(d, seq!['\x1b', '[', '1', '8', '~']) == (ground(), seq![KeyPress { code: KeyCode::F(7), mods: Mods::NONE }]),
        run_spec(d, seq!['\x1b', '[', '1', '9', '~']) == (ground(), seq![KeyPress { code: KeyCode::F(8), mods: Mods::NONE }]),
        run_spec(d, seq!['\x1b', '[', '2', '0', '~']) == (ground(), seq![KeyPress { code: KeyCode::F(9), mods: Mods::NONE }]),
        run_spec(d, seq!['\x1b', '[', '2', '1', '~']) == (ground(), seq![KeyPress { code: KeyCode::F(10), mods: Mods::NONE }]),
        run_spec(d, seq!['\x1b', '[', '2', '3', '~']) == (ground(), seq![KeyPress { code: KeyCode::F(11), mods: Mods::NONE }]),
        run_spec(d, seq!['\x1b', '[', '2', '4', '~']) == (ground(), seq![KeyPress { code: KeyCode::F(12), mods: Mods::NONE }]),
{
    lemma_csi_two_digits(d, '1', '1');
    lemma_csi_two_digits(d, '1', '2');
    lemma_csi_two_digits(d, '1', '3');
    lemma_csi_two_digits(d, '1', '4');
    lemma_csi_two_digits(d, '1', '5');
    lemma_csi_two_digits(d, '1', '7');
    lemma_csi_two_digits(d, '1', '8');
    lemma_csi_two_digits(d, '1', '9');
    lemma_csi_two_digits(d, '2', '0');
    lemma_csi_two_digits(d, '2', '1');
    lemma_csi_two_digits(d, '2', '3');
    lemma_csi_two_digits(d, '2', '4');
}

/// `ESC [ 1 ; m final`: a cursor key with xterm modifier parameter `m`.
pub open spec fn modified_key(m: char, final_char: char) -> Seq<char> {
    seq!['\x1b', '[', '1', ';', m, final_char]
}

proof fn lemma_modified_key(d: DecoderView, m: char, final_char: char, code: KeyCode)
    requires
        d.state == State::Ground,
        '2' <= m <= '8',
        ss3_spec(final_char) == Some(code),
        final_char == 'A' || final_char == 'B' || final_char == 'C' || final_char == 'D' || final_char == 'H' || final_char == 'F',
    ensures
        run_spec(d, modified_key(m, final_char)).1 == seq![KeyPress { code, mods: xterm_mods((m as u32 - '0' as u32) as u32) }],
{
    let s = modified_key(m, final_char);
    let n = (m as u32 - '0' as u32) as u32;
    assert(vstd::wrapping::u32_specs::wrapping_mul(0u32, 10u32) == 0u32) by {
        reveal(vstd::wrapping::u32_specs::wrapping_mul);
    }
    assert(vstd::wrapping::u32_specs::wrapping_add(0u32, n) == n) by {
        reveal(vstd::wrapping::u32_specs::wrapping_add);
    }
    assert(vstd::wrapping::u32_specs::wrapping_add(0u32, 1u32) == 1u32) by {
        reveal(vstd::wrapping::u32_specs::wrapping_add);
    }
    let s0 = Seq::<char>::empty();
    let s1 = seq!['\x1b'];
    let s2 = seq!['\x1b', '['];
    let s3 = seq!['\x1b', '[', '1'];
    let s4 = seq!['\x1b', '[', '1', ';'];
    let s5 = seq!['\x1b', '[', '1', ';', m];
    assert(s1.drop_last() =~= s0);
    assert(s2.drop_last() =~= s1);
    assert(s3.drop_last() =~= s2);
    assert(s4.drop_last() =~= s3);
    assert(s5.drop_last() =~= s4);
    assert(s.drop_last() =~= s5);
    let g1 = step_spec(d, '\x1b').0;
    let g2 = step_spec(g1, '[').0;
    let g3 = step_spec(g2, '1').0;
    let g4 = step_spec(g3, ';').0;
    let g5 = step_spec(g4, m).0;
    assert(run_spec(d, s0) == (d, Seq::<KeyPress>::empty()));
    assert(run_spec(d, s1).0 == g1 && run_spec(d, s1).1.len() == 0);
    assert(run_spec(d, s2).0 == g2 && run_spec(d, s2).1.len() == 0);
    assert(g2.params.len() == 0 && g2.current is None && !g2.private);
    assert(run_spec(d, s3).0 == g3 && run_spec(d, s3).1.len() == 0);
    assert(g3.current == Some(1u32));
    assert(run_spec(d, s4).0 == g4 && run_spec(d, s4).1.len() == 0);
    assert(g4.params =~= seq![1u32] && g4.current is None);
    assert(run_spec(d, s5).0 == g5 && run_spec(d, s5).1.len() == 0);
    assert(g5.current == Some(n) && g5.state == State::Csi && !g5.private);
    assert(g5.params.push(n) =~= seq![1u32, n]);
    let keys = step_spec(g5, final_char).1;
    assert(keys == seq![normal_form(KeyPress { code, mods: xterm_mods(n) })]);
    assert(Seq::<KeyPress>::empty() + keys =~= keys);
}

/// A cursor key sent with xterm's modifier parameter (`ESC [ 1 ; m x`, as
/// for Ctrl+Right) decodes to the same key with the modifiers the
/// parameter names.
#[verifier::spinoff_prover]
pub proof fn law_modified_cursor_keys(d: DecoderView, m: char)
    requires
        d.state == State::Ground,
        '2' <= m <= '8',
    ensures
        run_spec(d, modified_key(m, 'A')).1 == seq![KeyPress { code: KeyCode::Up, mods: xterm_mods((m as u32 - '0' as u32) as u32) }],
        run_spec(d, modified_key(m, 'B')).1 == seq![KeyPress { code: KeyCode::Down, mods: xterm_mods((m as u32 - '0' as u32) as u32) }],
        run_spec(d, modified_key(m, 'C')).1 == seq![KeyPress { code: KeyCode::Right, mods: xterm_mods((m as u32 - '0' as u32) as u32) }],
        run_spec(d, modified_key(m, 'D')).1 == seq![KeyPress { code: KeyCode::Left, mods: xterm_mods((m as u32 - '0' as u32) as u32) }],
        run_spec(d, modified_key(m, 'H')).1 == seq![KeyPress { code: KeyCode::Home, mods: xterm_mods((m as u32 - '0' as u32) as u32) }],
        run_spec(d, modified_key(m, 'F')).1 == seq![KeyPress { code: KeyCode::End, mods: xterm_mods((m as u32 - '0' as u32) as u32) }],
{
    lemma_modified_key(d, m, 'A', KeyCode::Up);
    lemma_modified_key(d, m, 'B', KeyCode::Down);
    lemma_modified_key(d, m, 'C', KeyCode::Right);
    lemma_modified_key(d, m, 'D', KeyCode::Left);
    lemma_modified_key(d, m, 'H', KeyCode::Home);
    lemma_modified_key(d, m, 'F', KeyCode::End);
}

} // verus!
