//! Turning each platform's input into one vocabulary of editing keys.
//!
//! Natively the terminal library has already decoded the keys, and a key
//! and its modifiers are mapped straight to a [`NormalizedKey`]. In the
//! browser the input is the raw escape stream: known sequences are first
//! rewritten to private-use characters, one per key, and then every
//! character is mapped on its own.

use vstd::prelude::*;
use std::collections::VecDeque;
use crate::term::keys::{HostCode, HostKey};
use crate::text::{chars_of, string_of};

verus! {

/// Keyboard input as the shell's editor understands it.
#[derive(Debug, Clone, Copy, PartialEq, Eq, Structural)]
pub enum NormalizedKey {
    /// Character input.
    Char(char),
    Enter,
    /// Basic navigation.
    Left,
    Right,
    Home,
    End,
    Up,
    Down,
    /// Editing.
    Backspace,
    Delete,
    /// Moving by word.
    CtrlLeft,
    CtrlRight,
    /// Deleting by word.
    CtrlBackspace,
    CtrlDelete,
    Undo,
    Redo,
    /// Control signals.
    CtrlC,
    CtrlD,
}

/// Something that turns one platform's input into normalised keys.
pub trait InputNormalizer {
    type InputType;

    /// Every key the input fed so far amounts to, draining it.
    fn normalize(&mut self) -> Vec<NormalizedKey>;

    /// Queue input to be normalised.
    fn feed(&mut self, event: Self::InputType);
}

/// The normaliser for native terminals.
pub type Normalizer = CrosstermNormalizer;

// Native: keys decoded by the terminal library.

/// The key a natively decoded key event means, or `None` for one the shell
/// has no use for. Control and Alt variants are looked at before the plain
/// key, and Emacs and Unix spellings (Ctrl+W, Alt+D, Alt+Backspace) map to
/// the same keys as the Ctrl ones.
pub open spec fn native_key_spec(k: HostKey) -> Option<NormalizedKey> {
    let code = k.code;
    if code == HostCode::Char('c') && k.ctrl {
        Some(NormalizedKey::CtrlC)
    } else if code == HostCode::Char('d') && k.ctrl {
        Some(NormalizedKey::CtrlD)
    } else if code == HostCode::Up {
        Some(NormalizedKey::Up)
    } else if code == HostCode::Down {
        Some(NormalizedKey::Down)
    } else if code == HostCode::Left && k.ctrl {
        Some(NormalizedKey::CtrlLeft)
    } else if code == HostCode::Right && k.ctrl {
        Some(NormalizedKey::CtrlRight)
    } else if code == HostCode::Backspace && k.ctrl {
        Some(NormalizedKey::CtrlBackspace)
    } else if code == HostCode::Delete && k.ctrl {
        Some(NormalizedKey::CtrlDelete)
    } else if code == HostCode::Char('w') && k.ctrl {
        Some(NormalizedKey::CtrlBackspace)
    } else if code == HostCode::Char('d') && k.alt {
        Some(NormalizedKey::CtrlDelete)
    } else if code == HostCode::Backspace && k.alt {
        Some(NormalizedKey::CtrlBackspace)
    } else if code == HostCode::Char('z') && k.ctrl {
        Some(NormalizedKey::Undo)
    } else if code == HostCode::Char('y') && k.ctrl {
        Some(NormalizedKey::Redo)
    } else {
        match code {
            HostCode::Left => Some(NormalizedKey::Left),
            HostCode::Right => Some(NormalizedKey::Right),
            HostCode::Home => Some(NormalizedKey::Home),
            HostCode::End => Some(NormalizedKey::End),
            HostCode::Delete => Some(NormalizedKey::Delete),
            HostCode::Backspace => Some(NormalizedKey::Backspace),
            HostCode::Enter => Some(NormalizedKey::Enter),
            HostCode::Char(c) => if c == '\r' || c == '\n' {
                Some(NormalizedKey::Enter)
            } else {
                Some(NormalizedKey::Char(c))
            },
            _ => None,
        }
    }
}

/// The keys a run of native key events means, the unmapped ones dropped.
pub open spec fn native_keys_spec(events: Seq<HostKey>) -> Seq<NormalizedKey>
    decreases events.len(),
{
    if events.len() == 0 {
        Seq::empty()
    } else {
        let rest = native_keys_spec(events.drop_last());
        match native_key_spec(events.last()) {
            Some(k) => rest.push(k),
            None => rest,
        }
    }
}

/// The key a natively decoded key event means.
pub fn native_key(k: HostKey) -> (r: Option<NormalizedKey>)
    ensures
        r == native_key_spec(k),
{
    let code = k.code;
    if code == HostCode::Char('c') && k.ctrl {
        Some(NormalizedKey::CtrlC)
    } else if code == HostCode::Char('d') && k.ctrl {
        Some(NormalizedKey::CtrlD)
    } else if code == HostCode::Up {
        Some(NormalizedKey::Up)
    } else if code == HostCode::Down {
        Some(NormalizedKey::Down)
    } else if code == HostCode::Left && k.ctrl {
        Some(NormalizedKey::CtrlLeft)
    } else if code == HostCode::Right && k.ctrl {
        Some(NormalizedKey::CtrlRight)
    } else if code == HostCode::Backspace && k.ctrl {
        Some(NormalizedKey::CtrlBackspace)
    } else if code == HostCode::Delete && k.ctrl {
        Some(NormalizedKey::CtrlDelete)
    } else if code == HostCode::Char('w') && k.ctrl {
        Some(NormalizedKey::CtrlBackspace)
    } else if code == HostCode::Char('d') && k.alt {
        Some(NormalizedKey::CtrlDelete)
    } else if code == HostCode::Backspace && k.alt {
        Some(NormalizedKey::CtrlBackspace)
    } else if code == HostCode::Char('z') && k.ctrl {
        Some(NormalizedKey::Undo)
    } else if code == HostCode::Char('y') && k.ctrl {
        Some(NormalizedKey::Redo)
    } else {
        match code {
            HostCode::Left => Some(NormalizedKey::Left),
            HostCode::Right => Some(NormalizedKey::Right),
            HostCode::Home => Some(NormalizedKey::Home),
            HostCode::End => Some(NormalizedKey::End),
            HostCode::Delete => Some(NormalizedKey::Delete),
            HostCode::Backspace => Some(NormalizedKey::Backspace),
            HostCode::Enter => Some(NormalizedKey::Enter),
            HostCode::Char(c) => if c == '\r' || c == '\n' {
                Some(NormalizedKey::Enter)
            } else {
                Some(NormalizedKey::Char(c))
            },
            _ => None,
        }
    }
}

/// Normalises natively decoded key events.
pub struct CrosstermNormalizer {
    event_queue: VecDeque<HostKey>,
}

impl CrosstermNormalizer {
    pub fn new() -> (r: Self)
        ensures
            r.queued().len() == 0,
    {
        Self { event_queue: VecDeque::new() }
    }

    /// The events fed and not yet normalised.
    pub closed spec fn queued(&self) -> Seq<HostKey> {
        self.event_queue@
    }
}

impl InputNormalizer for CrosstermNormalizer {
    type InputType = HostKey;

    fn feed(&mut self, event: HostKey)
        ensures
            final(self).queued() == old(self).queued().push(event),
    {
        self.event_queue.push_back(event);
    }

    fn normalize(&mut self) -> (keys: Vec<NormalizedKey>)
        ensures
            keys@ == native_keys_spec(old(self).queued()),
            final(self).queued().len() == 0,
    {
        let mut keys: Vec<NormalizedKey> = Vec::new();
        let ghost all = self.event_queue@;
        let ghost taken: Seq<HostKey> = Seq::empty();
        loop
            invariant
                all == taken + self.event_queue@,
                all == old(self).queued(),
                keys@ == native_keys_spec(taken),
            ensures
                keys@ == native_keys_spec(all),
                self.event_queue@.len() == 0,
            decreases self.event_queue@.len(),
        {
            let ghost before = self.event_queue@;
            match self.event_queue.pop_front() {
                Some(key) => {
                    proof {
                        assert(taken.push(key).drop_last() =~= taken);
                        assert(all =~= taken.push(key) + self.event_queue@);
                        taken = taken.push(key);
                    }
                    match native_key(key) {
                        Some(k) => keys.push(k),
                        None => {},
                    }
                },
                None => {
                    assert(all =~= taken);
                    break;
                },
            }
        }
        keys
    }
}

// Browser: the raw escape stream.

/// The escape sequences the browser rewrites, each to the private-use
/// character that stands for its key, in the order they are tried.
pub open spec fn browser_sequences() -> Seq<(Seq<char>, char)> {
    seq![
        // Ctrl + editing.
        (seq!['\x1b', '[', '3', ';', '5', '~'], '\u{E021}'),
        (seq!['\x1b', '[', '3', '^'], '\u{E021}'),
        (seq!['\x17'], '\u{E020}'),
        (seq!['\x1b', '\x7f'], '\u{E020}'),
        (seq!['\x1b', '\x08'], '\u{E020}'),
        (seq!['\x08'], '\u{E020}'),
        // Ctrl + navigation.
        (seq!['\x1b', '[', '1', ';', '5', 'D'], '\u{E010}'),
        (seq!['\x1b', '[', '5', 'D'], '\u{E010}'),
        (seq!['\x1b', '[', '1', ';', '5', 'C'], '\u{E011}'),
        (seq!['\x1b', '[', '5', 'C'], '\u{E011}'),
        // Arrows.
        (seq!['\x1b', '[', 'D'], '\u{E000}'),
        (seq!['\x1b', 'O', 'D'], '\u{E000}'),
        (seq!['\x1b', '[', 'C'], '\u{E001}'),
        (seq!['\x1b', 'O', 'C'], '\u{E001}'),
        // Home and End.
        (seq!['\x1b', '[', 'H'], '\u{E002}'),
        (seq!['\x1b', 'O', 'H'], '\u{E002}'),
        (seq!['\x1b', '[', '1', '~'], '\u{E002}'),
        (seq!['\x1b', '[', 'F'], '\u{E003}'),
        (seq!['\x1b', 'O', 'F'], '\u{E003}'),
        (seq!['\x1b', '[', '4', '~'], '\u{E003}'),
        // History.
        (seq!['\x1b', '[', 'A'], '\u{E040}'),
        (seq!['\x1b', 'O', 'A'], '\u{E040}'),
        (seq!['\x1b', '[', 'B'], '\u{E041}'),
        (seq!['\x1b', 'O', 'B'], '\u{E041}'),
        // Undo and redo.
        (seq!['\x1a'], '\u{E030}'),
        (seq!['\x19'], '\u{E031}'),
        // Forward delete.
        (seq!['\x1b', '[', '3', '~'], '\u{E004}'),
    ]
}

/// `text` with every occurrence of the non-empty `pat` replaced by `with`,
/// matching left to right without overlap, as `str::replace` does.
pub open spec fn replace_spec(text: Seq<char>, pat: Seq<char>, with: char) -> Seq<char>
    decreases text.len(),
{
    if text.len() == 0 || pat.len() == 0 {
        text
    } else if pat.len() <= text.len() && text.take(pat.len() as int) == pat {
        seq![with] + replace_spec(text.skip(pat.len() as int), pat, with)
    } else {
        seq![text[0]] + replace_spec(text.drop_first(), pat, with)
    }
}

/// `text` after the first `n` rewrites of `table`, in order.
pub open spec fn rewrite_spec(text: Seq<char>, table: Seq<(Seq<char>, char)>, n: nat) -> Seq<char>
    decreases n,
{
    if n == 0 || n > table.len() {
        text
    } else {
        let before = rewrite_spec(text, table, (n - 1) as nat);
        replace_spec(before, table[n - 1].0, table[n - 1].1)
    }
}

/// Whether `c` is a control character (general category Cc), as
/// `char::is_control` tests.
pub open spec fn is_control_spec(c: char) -> bool {
    c <= '\u{1f}' || ('\u{7f}' <= c && c <= '\u{9f}')
}

/// The key a character of rewritten browser input means.
pub open spec fn browser_char_spec(c: char) -> Option<NormalizedKey> {
    if c == '\r' || c == '\n' {
        Some(NormalizedKey::Enter)
    } else if c == '\x7f' {
        Some(NormalizedKey::Backspace)
    } else if c == '\x03' {
        Some(NormalizedKey::CtrlC)
    } else if c == '\u{E000}' {
        Some(NormalizedKey::Left)
    } else if c == '\u{E001}' {
        Some(NormalizedKey::Right)
    } else if c == '\u{E002}' {
        Some(NormalizedKey::Home)
    } else if c == '\u{E003}' {
        Some(NormalizedKey::End)
    } else if c == '\u{E004}' {
        Some(NormalizedKey::Delete)
    } else if c == '\u{E010}' {
        Some(NormalizedKey::CtrlLeft)
    } else if c == '\u{E011}' {
        Some(NormalizedKey::CtrlRight)
    } else if c == '\u{E020}' {
        Some(NormalizedKey::CtrlBackspace)
    } else if c == '\u{E021}' {
        Some(NormalizedKey::CtrlDelete)
    } else if c == '\u{E030}' {
        Some(NormalizedKey::Undo)
    } else if c == '\u{E031}' {
        Some(NormalizedKey::Redo)
    } else if c == '\u{E040}' {
        Some(NormalizedKey::Up)
    } else if c == '\u{E041}' {
        Some(NormalizedKey::Down)
    } else if !is_control_spec(c) {
        Some(NormalizedKey::Char(c))
    } else {
        None
    }
}

/// The keys the characters of `s` mean, the unmapped ones dropped.
pub open spec fn browser_keys_spec(s: Seq<char>) -> Seq<NormalizedKey>
    decreases s.len(),
{
    if s.len() == 0 {
        Seq::empty()
    } else {
        let rest = browser_keys_spec(s.drop_last());
        match browser_char_spec(s.last()) {
            Some(k) => rest.push(k),
            None => rest,
        }
    }
}

/// The keys a stretch of browser input means.
pub open spec fn browser_input_spec(input: Seq<char>) -> Seq<NormalizedKey> {
    browser_keys_spec(rewrite_spec(input, browser_sequences(), browser_sequences().len()))
}

/// The concatenation of `chunks`.
pub open spec fn joined(chunks: Seq<Seq<char>>) -> Seq<char>
    decreases chunks.len(),
{
    if chunks.len() == 0 {
        Seq::empty()
    } else {
        joined(chunks.drop_last()) + chunks.last()
    }
}

/// Whether `pat` occurs in `text` at char index `at`.
fn matches_at(text: &Vec<char>, at: usize, pat: &Vec<char>) -> (r: bool)
    requires
        at <= text@.len(),
    ensures
        r == (pat@.len() <= text@.len() - at && text@.skip(at as int).take(pat@.len() as int) == pat@),
{
    let n = text.len();
    if pat.len() > n - at {
        return false;
    }
    let mut i: usize = 0;
    while i < pat.len()
        invariant
            n == text@.len(),
            at <= text@.len(),
            pat@.len() <= text@.len() - at,
            i <= pat@.len(),
            forall|j: int| 0 <= j < i ==> text@[at + j] == pat@[j],
        decreases pat@.len() - i,
    {
        if text[at + i] != pat[i] {
            assert(text@.skip(at as int).take(pat@.len() as int)[i as int] != pat@[i as int]);
            return false;
        }
        i = i + 1;
    }
    assert(text@.skip(at as int).take(pat@.len() as int) =~= pat@);
    true
}

/// Every occurrence of `pat` in `text` replaced by `with`.
pub fn replace_all(text: &Vec<char>, pat: &Vec<char>, with: char) -> (r: Vec<char>)
    ensures
        r@ == replace_spec(text@, pat@, with),
{
    if pat.len() == 0 {
        let n = text.len();
        let copy = crate::segment::take_chars(text, n);
        assert(text@.take(n as int) =~= text@);
        return copy;
    }
    let mut out: Vec<char> = Vec::new();
    let mut i: usize = 0;
    assert(text@.skip(0) =~= text@);
    while i < text.len()
        invariant
            pat@.len() > 0,
            i <= text@.len(),
            out@ + replace_spec(text@.skip(i as int), pat@, with) == replace_spec(text@, pat@, with),
        decreases text@.len() - i,
    {
        let ghost rest = text@.skip(i as int);
        if matches_at(text, i, pat) {
            out.push(with);
            proof {
                assert(rest.skip(pat@.len() as int) =~= text@.skip(i + pat@.len()));
                assert(out@ + replace_spec(text@.skip(i + pat@.len()), pat@, with) =~= replace_spec(text@, pat@, with));
            }
            i = i + pat.len();
        } else {
            out.push(text[i]);
            proof {
                assert(rest.drop_first() =~= text@.skip(i + 1));
                assert(rest[0] == text@[i as int]);
                assert(out@ + replace_spec(text@.skip(i + 1), pat@, with) =~= replace_spec(text@, pat@, with));
            }
            i = i + 1;
        }
    }
    assert(text@.skip(i as int) =~= Seq::<char>::empty());
    assert(out@ + Seq::<char>::empty() =~= out@);
    out
}

/// The rewrite table as values.
fn browser_table() -> (r: Vec<(Vec<char>, char)>)
    ensures
        r@.len() == browser_sequences().len(),
        forall|i: int| 0 <= i < r@.len() ==> (#[trigger] r@[i]).0@ == browser_sequences()[i].0 && r@[i].1 == browser_sequences()[i].1,
{
    let r = vec![
        (vec!['\x1b', '[', '3', ';', '5', '~'], '\u{E021}'),
        (vec!['\x1b', '[', '3', '^'], '\u{E021}'),
        (vec!['\x17'], '\u{E020}'),
        (vec!['\x1b', '\x7f'], '\u{E020}'),
        (vec!['\x1b', '\x08'], '\u{E020}'),
        (vec!['\x08'], '\u{E020}'),
        (vec!['\x1b', '[', '1', ';', '5', 'D'], '\u{E010}'),
        (vec!['\x1b', '[', '5', 'D'], '\u{E010}'),
        (vec!['\x1b', '[', '1', ';', '5', 'C'], '\u{E011}'),
        (vec!['\x1b', '[', '5', 'C'], '\u{E011}'),
        (vec!['\x1b', '[', 'D'], '\u{E000}'),
        (vec!['\x1b', 'O', 'D'], '\u{E000}'),
        (vec!['\x1b', '[', 'C'], '\u{E001}'),
        (vec!['\x1b', 'O', 'C'], '\u{E001}'),
        (vec!['\x1b', '[', 'H'], '\u{E002}'),
        (vec!['\x1b', 'O', 'H'], '\u{E002}'),
        (vec!['\x1b', '[', '1', '~'], '\u{E002}'),
        (vec!['\x1b', '[', 'F'], '\u{E003}'),
        (vec!['\x1b', 'O', 'F'], '\u{E003}'),
        (vec!['\x1b', '[', '4', '~'], '\u{E003}'),
        (vec!['\x1b', '[', 'A'], '\u{E040}'),
        (vec!['\x1b', 'O', 'A'], '\u{E040}'),
        (vec!['\x1b', '[', 'B'], '\u{E041}'),
        (vec!['\x1b', 'O', 'B'], '\u{E041}'),
        (vec!['\x1a'], '\u{E030}'),
        (vec!['\x19'], '\u{E031}'),
        (vec!['\x1b', '[', '3', '~'], '\u{E004}'),
    ];
    r
}

/// Normalises the browser's raw input.
pub struct BrowserNormalizer {
    input_queue: VecDeque<String>,
}

impl BrowserNormalizer {
    pub fn new() -> (r: Self)
        ensures
            r.queued().len() == 0,
    {
        Self { input_queue: VecDeque::new() }
    }

    /// The chunks fed and not yet normalised.
    pub closed spec fn queued(&self) -> Seq<Seq<char>> {
        self.input_queue@.map_values(|s: String| s@)
    }

    /// Rewrite every escape sequence the shell knows to the private-use
    /// character that stands for its key.
    pub fn parse_sequences(&self, input: &str) -> (r: String)
        ensures
            r@ == rewrite_spec(input@, browser_sequences(), browser_sequences().len()),
    {
        let chars = chars_of(input);
        let clean = self.parse_sequences_chars(&chars);
        string_of(clean.as_slice())
    }

    /// The key one character of rewritten input means.
    pub fn map_char(&self, c: char) -> (r: Option<NormalizedKey>)
        ensures
            r == browser_char_spec(c),
    {
        if c == '\r' || c == '\n' {
            Some(NormalizedKey::Enter)
        } else if c == '\x7f' {
            Some(NormalizedKey::Backspace)
        } else if c == '\x03' {
            Some(NormalizedKey::CtrlC)
        } else if c == '\u{E000}' {
            Some(NormalizedKey::Left)
        } else if c == '\u{E001}' {
            Some(NormalizedKey::Right)
        } else if c == '\u{E002}' {
            Some(NormalizedKey::Home)
        } else if c == '\u{E003}' {
            Some(NormalizedKey::End)
        } else if c == '\u{E004}' {
            Some(NormalizedKey::Delete)
        } else if c == '\u{E010}' {
            Some(NormalizedKey::CtrlLeft)
        } else if c == '\u{E011}' {
            Some(NormalizedKey::CtrlRight)
        } else if c == '\u{E020}' {
            Some(NormalizedKey::CtrlBackspace)
        } else if c == '\u{E021}' {
            Some(NormalizedKey::CtrlDelete)
        } else if c == '\u{E030}' {
            Some(NormalizedKey::Undo)
        } else if c == '\u{E031}' {
            Some(NormalizedKey::Redo)
        } else if c == '\u{E040}' {
            Some(NormalizedKey::Up)
        } else if c == '\u{E041}' {
            Some(NormalizedKey::Down)
        } else if !(c <= '\u{1f}' || ('\u{7f}' <= c && c <= '\u{9f}')) {
            Some(NormalizedKey::Char(c))
        } else {
            None
        }
    }
}

impl InputNormalizer for BrowserNormalizer {
    type InputType = String;

    fn feed(&mut self, input: String)
        ensures
            final(self).queued() == old(self).queued().push(input@),
    {
        self.input_queue.push_back(input);
        proof {
            assert(self.queued() =~= old(self).queued().push(input@));
        }
    }

    fn normalize(&mut self) -> (keys: Vec<NormalizedKey>)
        ensures
            keys@ == browser_input_spec(joined(old(self).queued())),
            final(self).queued().len() == 0,
    {
        let mut raw: Vec<char> = Vec::new();
        let ghost taken: Seq<Seq<char>> = Seq::empty();
        loop
            invariant
                old(self).queued() == taken + self.queued(),
                raw@ == joined(taken),
            ensures
                raw@ == joined(old(self).queued()),
                self.queued().len() == 0,
            decreases self.input_queue@.len(),
        {
            match self.input_queue.pop_front() {
                Some(chunk) => {
                    let piece = chars_of(chunk.as_str());
                    let mut k: usize = 0;
                    let ghost start = raw@;
                    while k < piece.len()
                        invariant
                            k <= piece@.len(),
                            raw@ == start + piece@.take(k as int),
                        decreases piece@.len() - k,
                    {
                        raw.push(piece[k]);
                        k = k + 1;
                        assert(raw@ =~= start + piece@.take(k as int));
                    }
                    proof {
                        assert(piece@.take(k as int) =~= chunk@);
                        assert(taken.push(chunk@).drop_last() =~= taken);
                        taken = taken.push(chunk@);
                        assert(old(self).queued() =~= taken + self.queued());
                    }
                },
                None => {
                    assert(old(self).queued() =~= taken);
                    break;
                },
            }
        }
        let mut keys: Vec<NormalizedKey> = Vec::new();
        if raw.len() > 0 {
            let clean = self.parse_sequences_chars(&raw);
            let mut i: usize = 0;
            while i < clean.len()
                invariant
                    i <= clean@.len(),
                    keys@ == browser_keys_spec(clean@.take(i as int)),
                decreases clean@.len() - i,
            {
                let ghost before = clean@.take(i as int);
                match self.map_char(clean[i]) {
                    Some(k) => keys.push(k),
                    None => {},
                }
                proof {
                    assert(clean@.take(i + 1).drop_last() =~= before);
                }
                i = i + 1;
            }
            assert(clean@.take(i as int) =~= clean@);
            assert(keys@ == browser_input_spec(raw@));
        } else {
            proof {
                assert(raw@ =~= Seq::<char>::empty());
                lemma_rewrite_empty(browser_sequences(), browser_sequences().len());
                assert(keys@ =~= browser_input_spec(raw@));
            }
        }
        keys
    }
}

impl BrowserNormalizer {
    fn parse_sequences_chars(&self, input: &Vec<char>) -> (r: Vec<char>)
        ensures
            r@ == rewrite_spec(input@, browser_sequences(), browser_sequences().len()),
    {
        let table = browser_table();
        let n = input.len();
        let mut text = crate::segment::take_chars(input, n);
        assert(input@.take(n as int) =~= input@);
        let mut i: usize = 0;
        while i < table.len()
            invariant
                i <= table@.len(),
                table@.len() == browser_sequences().len(),
                forall|j: int| 0 <= j < table@.len() ==> (#[trigger] table@[j]).0@ == browser_sequences()[j].0 && table@[j].1 == browser_sequences()[j].1,
                text@ == rewrite_spec(input@, browser_sequences(), i as nat),
            decreases table@.len() - i,
        {
            let entry = &table[i];
            text = replace_all(&text, &entry.0, entry.1);
            i = i + 1;
        }
        text
    }
}

/// Rewriting empty input leaves it empty.
proof fn lemma_rewrite_empty(table: Seq<(Seq<char>, char)>, n: nat)
    ensures
        rewrite_spec(Seq::empty(), table, n) == Seq::<char>::empty(),
    decreases n,
{
    if n > 0 && n <= table.len() {
        lemma_rewrite_empty(table, (n - 1) as nat);
    }
}

/// What each escape sequence the browser sends means to the shell, entry
/// by entry in the order they are rewritten: Ctrl+Delete (`ESC [ 3 ; 5 ~`,
/// `ESC [ 3 ^`), Ctrl+Backspace (`^W`, Alt+DEL, Alt+`^H`, `^H`), Ctrl+Left
/// and Ctrl+Right (`ESC [ 1 ; 5 D/C`, `ESC [ 5 D/C`), the arrows (`ESC [`
/// or `ESC O` with D left, C right, A up, B down), Home (`H`, `ESC [ 1 ~`)
/// and End (`F`, `ESC [ 4 ~`), Undo (`^Z`), Redo (`^Y`) and Delete
/// (`ESC [ 3 ~`). Every entry's sequence is rewritten to a char that means
/// the key named here, and to no other.
pub proof fn law_browser_sequences_name_their_keys()
    ensures
        browser_sequences().len() == 27,
        browser_sequences()[0].0 == seq!['\x1b', '[', '3', ';', '5', '~'] && browser_char_spec(browser_sequences()[0].1) == Some(NormalizedKey::CtrlDelete),
        browser_sequences()[1].0 == seq!['\x1b', '[', '3', '^'] && browser_char_spec(browser_sequences()[1].1) == Some(NormalizedKey::CtrlDelete),
        browser_sequences()[2].0 == seq!['\x17'] && browser_char_spec(browser_sequences()[2].1) == Some(NormalizedKey::CtrlBackspace),
        browser_sequences()[3].0 == seq!['\x1b', '\x7f'] && browser_char_spec(browser_sequences()[3].1) == Some(NormalizedKey::CtrlBackspace),
        browser_sequences()[4].0 == seq!['\x1b', '\x08'] && browser_char_spec(browser_sequences()[4].1) == Some(NormalizedKey::CtrlBackspace),
        browser_sequences()[5].0 == seq!['\x08'] && browser_char_spec(browser_sequences()[5].1) == Some(NormalizedKey::CtrlBackspace),
        browser_sequences()[6].0 == seq!['\x1b', '[', '1', ';', '5', 'D'] && browser_char_spec(browser_sequences()[6].1) == Some(NormalizedKey::CtrlLeft),
        browser_sequences()[7].0 == seq!['\x1b', '[', '5', 'D'] && browser_char_spec(browser_sequences()[7].1) == Some(NormalizedKey::CtrlLeft),
        browser_sequences()[8].0 == seq!['\x1b', '[', '1', ';', '5', 'C'] && browser_char_spec(browser_sequences()[8].1) == Some(NormalizedKey::CtrlRight),
        browser_sequences()[9].0 == seq!['\x1b', '[', '5', 'C'] && browser_char_spec(browser_sequences()[9].1) == Some(NormalizedKey::CtrlRight),
        browser_sequences()[10].0 == seq!['\x1b', '[', 'D'] && browser_char_spec(browser_sequences()[10].1) == Some(NormalizedKey::Left),
        browser_sequences()[11].0 == seq!['\x1b', 'O', 'D'] && browser_char_spec(browser_sequences()[11].1) == Some(NormalizedKey::Left),
        browser_sequences()[12].0 == seq!['\x1b', '[', 'C'] && browser_char_spec(browser_sequences()[12].1) == Some(NormalizedKey::Right),
        browser_sequences()[13].0 == seq!['\x1b', 'O', 'C'] && browser_char_spec(browser_sequences()[13].1) == Some(NormalizedKey::Right),
        browser_sequences()[14].0 == seq!['\x1b', '[', 'H'] && browser_char_spec(browser_sequences()[14].1) == Some(NormalizedKey::Home),
        browser_sequences()[15].0 == seq!['\x1b', 'O', 'H'] && browser_char_spec(browser_sequences()[15].1) == Some(NormalizedKey::Home),
        browser_sequences()[16].0 == seq!['\x1b', '[', '1', '~'] && browser_char_spec(browser_sequences()[16].1) == Some(NormalizedKey::Home),
        browser_sequences()[17].0 == seq!['\x1b', '[', 'F'] && browser_char_spec(browser_sequences()[17].1) == Some(NormalizedKey::End),
        browser_sequences()[18].0 == seq!['\x1b', 'O', 'F'] && browser_char_spec(browser_sequences()[18].1) == Some(NormalizedKey::End),
        browser_sequences()[19].0 == seq!['\x1b', '[', '4', '~'] && browser_char_spec(browser_sequences()[19].1) == Some(NormalizedKey::End),
        browser_sequences()[20].0 == seq!['\x1b', '[', 'A'] && browser_char_spec(browser_sequences()[20].1) == Some(NormalizedKey::Up),
        browser_sequences()[21].0 == seq!['\x1b', 'O', 'A'] && browser_char_spec(browser_sequences()[21].1) == Some(NormalizedKey::Up),
        browser_sequences()[22].0 == seq!['\x1b', '[', 'B'] && browser_char_spec(browser_sequences()[22].1) == Some(NormalizedKey::Down),
        browser_sequences()[23].0 == seq!['\x1b', 'O', 'B'] && browser_char_spec(browser_sequences()[23].1) == Some(NormalizedKey::Down),
        browser_sequences()[24].0 == seq!['\x1a'] && browser_char_spec(browser_sequences()[24].1) == Some(NormalizedKey::Undo),
        browser_sequences()[25].0 == seq!['\x19'] && browser_char_spec(browser_sequences()[25].1) == Some(NormalizedKey::Redo),
        browser_sequences()[26].0 == seq!['\x1b', '[', '3', '~'] && browser_char_spec(browser_sequences()[26].1) == Some(NormalizedKey::Delete),
{
}

} // verus!
