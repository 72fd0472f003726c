//! The shell's own line editor: a byte cursor into a `String`, undo and
//! redo of whole snapshots, and a list of submitted commands to walk.
//!
//! Words are runs of non-whitespace, and every motion stays on a char
//! boundary.

use vstd::prelude::*;
use crate::shell::normalize::{NormalizedKey, native_key_spec};
use crate::term::keys::{HostCode, HostKey};
use crate::text::{byte_offset, chars_of, floor_char, floor_char_index, is_blank, is_ws, is_whitespace, all_whitespace, len_utf8, string_of, utf8_len};

verus! {

/// How many snapshots undo keeps.
pub const UNDO_DEPTH: usize = 50;

/// What the shell must do after a key.
#[derive(Debug, Clone, PartialEq)]
pub enum EditorAction {
    Nothing,
    RedrawLine,
    Bell,
    Submit(String),
}

/// An [`EditorAction`] as a value.
pub enum ActionView {
    Nothing,
    RedrawLine,
    Bell,
    Submit(Seq<char>),
}

impl View for EditorAction {
    type V = ActionView;

    open spec fn view(&self) -> ActionView {
        match self {
            EditorAction::Nothing => ActionView::Nothing,
            EditorAction::RedrawLine => ActionView::RedrawLine,
            EditorAction::Bell => ActionView::Bell,
            EditorAction::Submit(s) => ActionView::Submit(s@),
        }
    }
}

#[derive(Clone, Debug)]
struct LineState {
    buffer: String,
    cursor: usize,
}

/// A line being typed at the shell prompt.
pub struct LineEditor {
    pub input_buffer: String,
    /// A byte index into `input_buffer`, on a char boundary.
    pub cursor_pos: usize,
    undo_stack: Vec<LineState>,
    redo_stack: Vec<LineState>,
    history: Vec<String>,
    history_index: usize,
    history_draft: String,
}

/// A shell line editor as a value. `cursor` is a byte index.
pub struct ShellView {
    pub buffer: Seq<char>,
    pub cursor: nat,
    pub undo: Seq<(Seq<char>, nat)>,
    pub redo: Seq<(Seq<char>, nat)>,
    pub history: Seq<Seq<char>>,
    pub index: nat,
    pub draft: Seq<char>,
}

spec fn states(s: Seq<LineState>) -> Seq<(Seq<char>, nat)> {
    s.map_values(|x: LineState| (x.buffer@, x.cursor as nat))
}

spec fn texts(s: Seq<String>) -> Seq<Seq<char>> {
    s.map_values(|x: String| x@)
}

impl View for LineEditor {
    type V = ShellView;

    closed spec fn view(&self) -> ShellView {
        ShellView {
            buffer: self.input_buffer@,
            cursor: self.cursor_pos as nat,
            undo: states(self.undo_stack@),
            redo: states(self.redo_stack@),
            history: texts(self.history@),
            index: self.history_index as nat,
            draft: self.history_draft@,
        }
    }
}

/// The byte offset of char index `k` of `s`.
pub open spec fn offset(s: Seq<char>, k: nat) -> nat {
    utf8_len(s.take(k as int))
}

/// The char index of byte `b` of `s` (the last boundary at or before it).
pub open spec fn char_at(s: Seq<char>, b: nat) -> nat {
    floor_char(s, b as int)
}

/// Byte `b` is a char boundary of `s`, at or before its end.
pub open spec fn on_boundary(s: Seq<char>, b: nat) -> bool {
    offset(s, char_at(s, b)) == b
}

/// `s` is short enough that every byte offset in it is a `usize`.
pub open spec fn fits(s: Seq<char>) -> bool {
    utf8_len(s) <= usize::MAX
}

/// A saved line whose cursor is on one of its boundaries.
pub open spec fn state_ok(st: (Seq<char>, nat)) -> bool {
    fits(st.0) && on_boundary(st.0, st.1)
}

/// What every operation keeps: the cursor on a boundary, saved lines
/// sound, and the history position within the history.
pub open spec fn shell_wf(v: ShellView) -> bool {
    &&& state_ok((v.buffer, v.cursor))
    &&& forall|i: int| 0 <= i < v.undo.len() ==> state_ok(#[trigger] v.undo[i])
    &&& forall|i: int| 0 <= i < v.redo.len() ==> state_ok(#[trigger] v.redo[i])
    &&& forall|i: int| 0 <= i < v.history.len() ==> fits(#[trigger] v.history[i])
    &&& fits(v.draft)
    &&& v.index <= v.history.len()
}

/// The line `buf` with the cursor at char index `k`.
pub open spec fn with_text(v: ShellView, buf: Seq<char>, k: nat) -> ShellView {
    ShellView { buffer: buf, cursor: offset(buf, k), ..v }
}

/// Save the line for undo, unless it is what was saved last; a new save
/// drops the redo stack, and only the newest `UNDO_DEPTH` saves are kept.
pub open spec fn snapshot(v: ShellView) -> ShellView {
    let current = (v.buffer, v.cursor);
    if v.undo.len() > 0 && v.undo.last() == current {
        v
    } else {
        let u = v.undo.push(current);
        ShellView { undo: if u.len() > UNDO_DEPTH { u.drop_first() } else { u }, redo: Seq::empty(), ..v }
    }
}

/// Back over whitespace from char index `i`.
pub open spec fn back_spaces(s: Seq<char>, i: nat) -> nat
    decreases i,
{
    if i == 0 || i > s.len() {
        i
    } else if is_ws(s[i - 1]) {
        back_spaces(s, (i - 1) as nat)
    } else {
        i
    }
}

/// Back over non-whitespace from char index `i`.
pub open spec fn back_word(s: Seq<char>, i: nat) -> nat
    decreases i,
{
    if i == 0 || i > s.len() {
        i
    } else if !is_ws(s[i - 1]) {
        back_word(s, (i - 1) as nat)
    } else {
        i
    }
}

/// Forward over non-whitespace from char index `i`.
pub open spec fn fwd_word(s: Seq<char>, i: nat) -> nat
    decreases s.len() - i,
{
    if i >= s.len() {
        i
    } else if !is_ws(s[i as int]) {
        fwd_word(s, i + 1)
    } else {
        i
    }
}

/// Forward over whitespace from char index `i`.
pub open spec fn fwd_spaces(s: Seq<char>, i: nat) -> nat
    decreases s.len() - i,
{
    if i >= s.len() {
        i
    } else if is_ws(s[i as int]) {
        fwd_spaces(s, i + 1)
    } else {
        i
    }
}

/// Where Ctrl+Left lands from char index `k`: back over whitespace, then
/// back over the word.
pub open spec fn word_left(s: Seq<char>, k: nat) -> nat {
    back_word(s, back_spaces(s, k))
}

/// Where Ctrl+Right lands from char index `k`: over the word, then over
/// the whitespace after it.
pub open spec fn word_right(s: Seq<char>, k: nat) -> nat {
    fwd_spaces(s, fwd_word(s, k))
}

/// Submit the line: record it unless it is blank or repeats the last
/// entry, and start afresh at the end of the history.
pub open spec fn enter_spec(v: ShellView) -> ShellView {
    let cmd = v.buffer;
    let h = if !is_blank(cmd) && !(v.history.len() > 0 && v.history.last() == cmd) {
        v.history.push(cmd)
    } else {
        v.history
    };
    ShellView {
        buffer: Seq::empty(),
        cursor: 0,
        undo: Seq::empty(),
        redo: Seq::empty(),
        history: h,
        index: h.len(),
        draft: Seq::empty(),
    }
}

/// Step back through the history, keeping the line being typed as the
/// draft when the walk begins.
pub open spec fn up_spec(v: ShellView) -> ShellView {
    if v.index > 0 {
        let draft = if v.index == v.history.len() { v.buffer } else { v.draft };
        let i = (v.index - 1) as nat;
        ShellView {
            draft,
            index: i,
            buffer: v.history[i as int],
            cursor: utf8_len(v.history[i as int]),
            undo: Seq::empty(),
            redo: Seq::empty(),
            ..v
        }
    } else {
        v
    }
}

/// Step forward through the history, back to the draft at its end.
pub open spec fn down_spec(v: ShellView) -> ShellView {
    if v.index < v.history.len() {
        let i = v.index + 1;
        let line = if i == v.history.len() { v.draft } else { v.history[i as int] };
        ShellView {
            index: i,
            buffer: line,
            cursor: utf8_len(line),
            undo: Seq::empty(),
            redo: Seq::empty(),
            ..v
        }
    } else {
        v
    }
}

/// What a key does to the editor, and what the shell must do after it.
pub open spec fn shell_step(v: ShellView, key: NormalizedKey) -> (ShellView, ActionView) {
    let s = v.buffer;
    let k = char_at(s, v.cursor);
    let len = utf8_len(s);
    match key {
        NormalizedKey::Enter => (enter_spec(v), ActionView::Submit(v.buffer)),
        NormalizedKey::Char(c) => (with_text(snapshot(v), s.insert(k as int, c), k + 1), ActionView::RedrawLine),
        NormalizedKey::Left => (if v.cursor > 0 { ShellView { cursor: offset(s, (k - 1) as nat), ..v } } else { v }, ActionView::RedrawLine),
        NormalizedKey::Right => (if k < s.len() { ShellView { cursor: offset(s, k + 1), ..v } } else { v }, ActionView::RedrawLine),
        NormalizedKey::Home => (ShellView { cursor: 0, ..v }, ActionView::RedrawLine),
        NormalizedKey::End => (ShellView { cursor: len, ..v }, ActionView::RedrawLine),
        NormalizedKey::Up => (up_spec(v), ActionView::RedrawLine),
        NormalizedKey::Down => (down_spec(v), ActionView::RedrawLine),
        NormalizedKey::CtrlLeft => (if v.cursor > 0 { ShellView { cursor: offset(s, word_left(s, k)), ..v } } else { v }, ActionView::RedrawLine),
        NormalizedKey::CtrlRight => (if v.cursor < len { ShellView { cursor: offset(s, word_right(s, k)), ..v } } else { v }, ActionView::RedrawLine),
        NormalizedKey::Backspace => (if v.cursor > 0 {
            with_text(snapshot(v), s.remove(k - 1), (k - 1) as nat)
        } else {
            snapshot(v)
        }, ActionView::RedrawLine),
        NormalizedKey::Delete => (if v.cursor < len { with_text(snapshot(v), s.remove(k as int), k) } else { snapshot(v) }, ActionView::RedrawLine),
        NormalizedKey::CtrlBackspace => (if v.cursor > 0 {
            let j = word_left(s, k);
            with_text(snapshot(v), s.take(j as int) + s.skip(k as int), j)
        } else {
            snapshot(v)
        }, ActionView::RedrawLine),
        NormalizedKey::CtrlDelete => (if v.cursor < len {
            let j = word_right(s, k);
            with_text(snapshot(v), s.take(k as int) + s.skip(j as int), k)
        } else {
            snapshot(v)
        }, ActionView::RedrawLine),
        NormalizedKey::Undo => (if v.undo.len() > 0 {
            let prev = v.undo.last();
            ShellView { undo: v.undo.drop_last(), redo: v.redo.push((s, v.cursor)), buffer: prev.0, cursor: prev.1, ..v }
        } else {
            v
        }, ActionView::RedrawLine),
        NormalizedKey::Redo => (if v.redo.len() > 0 {
            let next = v.redo.last();
            ShellView { redo: v.redo.drop_last(), undo: v.undo.push((s, v.cursor)), buffer: next.0, cursor: next.1, ..v }
        } else {
            v
        }, ActionView::RedrawLine),
        NormalizedKey::CtrlC => (v, ActionView::Nothing),
        NormalizedKey::CtrlD => (v, ActionView::Nothing),
    }
}

/// Redo after undo puts the editor back exactly as it was.
pub proof fn law_redo_after_undo(v: ShellView)
    requires
        v.undo.len() > 0,
    ensures
        shell_step(shell_step(v, NormalizedKey::Undo).0, NormalizedKey::Redo).0 == v,
{
    let u = shell_step(v, NormalizedKey::Undo).0;
    let w = shell_step(u, NormalizedKey::Redo).0;
    assert(w.undo =~= v.undo);
    assert(w.redo =~= v.redo);
}

/// Undo after typing a character gives back the line and cursor from
/// before it.
pub proof fn law_undo_takes_back_a_char(v: ShellView, c: char)
    ensures
        shell_step(shell_step(v, NormalizedKey::Char(c)).0, NormalizedKey::Undo).0.buffer == v.buffer,
        shell_step(shell_step(v, NormalizedKey::Char(c)).0, NormalizedKey::Undo).0.cursor == v.cursor,
{
    let s = snapshot(v);
    assert(s.undo.len() > 0 && s.undo.last() == (v.buffer, v.cursor));
}

/// Stepping back into the history and forward again returns to the line
/// that was being typed.
pub proof fn law_walk_returns_to_the_line(v: ShellView)
    requires
        v.index == v.history.len(),
        v.history.len() > 0,
    ensures
        shell_step(shell_step(v, NormalizedKey::Up).0, NormalizedKey::Down).0.buffer == v.buffer,
        shell_step(shell_step(v, NormalizedKey::Up).0, NormalizedKey::Down).0.index == v.index,
{
}

/// A submitted line that is not blank and not a repeat is recalled first.
pub proof fn law_submitted_line_is_recalled_first(v: ShellView)
    requires
        !is_blank(v.buffer),
        !(v.history.len() > 0 && v.history.last() == v.buffer),
    ensures
        shell_step(enter_spec(v), NormalizedKey::Up).0.buffer == v.buffer,
{
}

proof fn lemma_offset_bounds(s: Seq<char>, i: nat, j: nat)
    requires
        i <= j <= s.len(),
    ensures
        offset(s, i) <= offset(s, j) <= utf8_len(s),
{
    crate::text::lemma_utf8_len_prefix_monotone(s, i as int, j as int);
    crate::text::lemma_utf8_len_prefix_monotone(s, j as int, s.len() as int);
    assert(s.take(s.len() as int) =~= s);
}

/// Char index `k` of `s` is found again from its byte offset.
proof fn lemma_char_at_offset(s: Seq<char>, k: nat)
    requires
        k <= s.len(),
    ensures
        char_at(s, offset(s, k)) == k,
        on_boundary(s, offset(s, k)),
    decreases k,
{
    if k > 0 {
        let t = s.drop_first();
        assert(s.take(k as int).drop_first() =~= t.take(k - 1));
        assert(s.take(k as int)[0] == s[0]);
        lemma_char_at_offset(t, (k - 1) as nat);
        assert(offset(s, k) == crate::text::utf8_width(s[0]) + offset(t, (k - 1) as nat));
        assert(s.take((1 + char_at(t, offset(t, (k - 1) as nat))) as int).drop_first() =~= t.take(char_at(t, offset(t, (k - 1) as nat)) as int));
    } else {
        assert(s.take(0) =~= Seq::<char>::empty());
        if s.len() > 0 {
            assert(crate::text::utf8_width(s[0]) >= 1);
        }
    }
}

/// Byte offsets of a line that fits are `usize`s.
proof fn lemma_fits_offset(s: Seq<char>, k: nat)
    requires
        fits(s),
        k <= s.len(),
    ensures
        offset(s, k) <= usize::MAX,
{
    lemma_offset_bounds(s, k, s.len());
}

/// A line no longer than one that fits also fits.
proof fn lemma_utf8_len_parts(a: Seq<char>, b: Seq<char>)
    ensures
        utf8_len(a + b) == utf8_len(a) + utf8_len(b),
{
    crate::text::lemma_utf8_len_concat(a, b);
}

/// A line has at least as many bytes as chars.
proof fn lemma_len_le_bytes(s: Seq<char>)
    ensures
        s.len() <= utf8_len(s),
    decreases s.len(),
{
    if s.len() > 0 {
        lemma_len_le_bytes(s.drop_first());
    }
}

/// Changing only the line and cursor keeps the editor sound when the new
/// cursor is on a boundary of the new line.
proof fn lemma_wf_keep(v: ShellView, w: ShellView)
    requires
        shell_wf(v),
        w.undo == v.undo,
        w.redo == v.redo,
        w.history == v.history,
        w.draft == v.draft,
        w.index == v.index,
        state_ok((w.buffer, w.cursor)),
    ensures
        shell_wf(w),
{
}

/// Saved lines stay sound when a sound one is pushed.
proof fn lemma_states_push(u: Seq<(Seq<char>, nat)>, st: (Seq<char>, nat))
    requires
        forall|i: int| 0 <= i < u.len() ==> state_ok(#[trigger] u[i]),
        state_ok(st),
    ensures
        forall|i: int| 0 <= i < u.push(st).len() ==> state_ok(#[trigger] u.push(st)[i]),
        forall|i: int| 0 <= i < u.push(st).drop_first().len() ==> state_ok(#[trigger] u.push(st).drop_first()[i]),
        u.len() > 0 ==> forall|i: int| 0 <= i < u.drop_last().len() ==> state_ok(#[trigger] u.drop_last()[i]),
{
    assert forall|i: int| 0 <= i < u.push(st).len() implies state_ok(#[trigger] u.push(st)[i]) by {
        if i < u.len() {
            assert(u.push(st)[i] == u[i]);
        }
    }
    assert forall|i: int| 0 <= i < u.push(st).drop_first().len() implies state_ok(#[trigger] u.push(st).drop_first()[i]) by {
        assert(u.push(st).drop_first()[i] == u.push(st)[i + 1]);
    }
    if u.len() > 0 {
        assert forall|i: int| 0 <= i < u.drop_last().len() implies state_ok(#[trigger] u.drop_last()[i]) by {
            assert(u.drop_last()[i] == u[i]);
        }
    }
}

fn same_text(a: &str, b: &str) -> (r: bool)
    ensures
        r == (a@ == b@),
{
    let x = chars_of(a);
    let y = chars_of(b);
    if x.len() != y.len() {
        return false;
    }
    let mut i: usize = 0;
    while i < x.len()
        invariant
            x@ == a@,
            y@ == b@,
            x@.len() == y@.len(),
            i <= x@.len(),
            forall|j: int| 0 <= j < i ==> x@[j] == y@[j],
        decreases x@.len() - i,
    {
        if x[i] != y[i] {
            return false;
        }
        i = i + 1;
    }
    assert(x@ =~= y@);
    true
}

impl Default for LineEditor {
    fn default() -> (r: Self)
        ensures
            r@ == LineEditor::fresh(),
    {
        Self::new()
    }
}

impl LineEditor {
    /// An empty line with no history.
    pub open spec fn fresh() -> ShellView {
        ShellView {
            buffer: Seq::empty(),
            cursor: 0,
            undo: Seq::empty(),
            redo: Seq::empty(),
            history: Seq::empty(),
            index: 0,
            draft: Seq::empty(),
        }
    }

    pub closed spec fn wf(&self) -> bool {
        shell_wf(self@)
    }

    /// A well-formed editor's state is one the laws below speak of.
    pub proof fn lemma_wf_state(&self)
        requires
            self.wf(),
        ensures
            shell_wf(self@),
    {
    }

    pub fn new() -> (r: Self)
        ensures
            r@ == Self::fresh(),
            r.wf(),
    {
        let r = Self {
            input_buffer: String::new(),
            cursor_pos: 0,
            undo_stack: Vec::new(),
            redo_stack: Vec::new(),
            history: Vec::new(),
            history_index: 0,
            history_draft: String::new(),
        };
        proof {
            assert(r@.undo =~= Seq::<(Seq<char>, nat)>::empty());
            assert(r@.redo =~= Seq::<(Seq<char>, nat)>::empty());
            assert(r@.history =~= Seq::<Seq<char>>::empty());
            assert(r@.buffer.take(0) =~= Seq::<char>::empty());
        }
        r
    }

    /// Apply one key.
    ///
    /// The line must leave room for one more char in a `usize` of bytes.
    pub fn handle_input(&mut self, key: NormalizedKey) -> (r: EditorAction)
        requires
            old(self).wf(),
            utf8_len(old(self)@.buffer) + 4 <= usize::MAX,
        ensures
            final(self).wf(),
            (final(self)@, r@) == shell_step(old(self)@, key),
    {
        match key {
            NormalizedKey::Enter => self.handle_enter(),
            NormalizedKey::Char(c) => {
                self.handle_char(c);
                EditorAction::RedrawLine
            },
            NormalizedKey::Left => {
                self.handle_left();
                EditorAction::RedrawLine
            },
            NormalizedKey::Right => {
                self.handle_right();
                EditorAction::RedrawLine
            },
            NormalizedKey::Home => {
                self.handle_home();
                EditorAction::RedrawLine
            },
            NormalizedKey::End => {
                self.handle_end();
                EditorAction::RedrawLine
            },
            NormalizedKey::Up => {
                self.handle_up();
                EditorAction::RedrawLine
            },
            NormalizedKey::Down => {
                self.handle_down();
                EditorAction::RedrawLine
            },
            NormalizedKey::CtrlLeft => {
                self.handle_ctrl_left();
                EditorAction::RedrawLine
            },
            NormalizedKey::CtrlRight => {
                self.handle_ctrl_right();
                EditorAction::RedrawLine
            },
            NormalizedKey::Backspace => {
                self.handle_backspace();
                EditorAction::RedrawLine
            },
            NormalizedKey::Delete => {
                self.handle_delete();
                EditorAction::RedrawLine
            },
            NormalizedKey::CtrlBackspace => {
                self.handle_ctrl_backspace();
                EditorAction::RedrawLine
            },
            NormalizedKey::CtrlDelete => {
                self.handle_ctrl_delete();
                EditorAction::RedrawLine
            },
            NormalizedKey::Undo => {
                self.handle_undo();
                EditorAction::RedrawLine
            },
            NormalizedKey::Redo => {
                self.handle_redo();
                EditorAction::RedrawLine
            },
            // Signals are the shell's to handle, not the line's.
            NormalizedKey::CtrlC => EditorAction::Nothing,
            NormalizedKey::CtrlD => EditorAction::Nothing,
        }
    }

    /// The line as chars, with the char index of the cursor.
    fn split_at_cursor(&self) -> (r: (Vec<char>, usize))
        requires
            self.wf(),
        ensures
            r.0@ == self@.buffer,
            r.1 == char_at(self@.buffer, self@.cursor),
            r.1 <= r.0@.len(),
            offset(self@.buffer, r.1 as nat) == self@.cursor,
    {
        let chars = chars_of(self.input_buffer.as_str());
        let k = floor_char_index(chars.as_slice(), self.cursor_pos);
        (chars, k)
    }

    /// Replace the line with `chars`, the cursor at char index `k`.
    fn set_text(&mut self, chars: Vec<char>, k: usize)
        requires
            k <= chars@.len(),
            fits(chars@),
        ensures
            final(self)@ == with_text(old(self)@, chars@, k as nat),
            state_ok((final(self)@.buffer, final(self)@.cursor)),
    {
        proof {
            lemma_fits_offset(chars@, k as nat);
            lemma_char_at_offset(chars@, k as nat);
        }
        self.cursor_pos = byte_offset(chars.as_slice(), k);
        self.input_buffer = string_of(chars.as_slice());
    }

    fn handle_enter(&mut self) -> (r: EditorAction)
        requires
            old(self).wf(),
            fits(old(self)@.buffer),
        ensures
            final(self).wf(),
            final(self)@ == enter_spec(old(self)@),
            r@ == ActionView::Submit(old(self)@.buffer),
    {
        let cmd = string_of(chars_of(self.input_buffer.as_str()).as_slice());
        let blank = all_whitespace(chars_of(cmd.as_str()).as_slice());
        if !blank {
            let repeat = match self.history.last() {
                Some(last) => same_text(last.as_str(), cmd.as_str()),
                None => false,
            };
            proof {
                if self.history@.len() > 0 {
                    assert(texts(self.history@).last() == self.history@.last()@);
                }
            }
            if !repeat {
                let ghost before = self.history@;
                self.history.push(string_of(chars_of(cmd.as_str()).as_slice()));
                proof {
                    assert(texts(self.history@) =~= texts(before).push(cmd@));
                }
            }
        }
        self.history_index = self.history.len();
        self.history_draft = String::new();
        self.input_buffer = String::new();
        self.cursor_pos = 0;
        self.undo_stack.clear();
        self.redo_stack.clear();
        proof {
            assert(self@.undo =~= Seq::<(Seq<char>, nat)>::empty());
            assert(self@.redo =~= Seq::<(Seq<char>, nat)>::empty());
            assert(self@.buffer.take(0) =~= Seq::<char>::empty());
            assert(self@.history =~= enter_spec(old(self)@).history);
        }
        EditorAction::Submit(cmd)
    }

    fn handle_char(&mut self, c: char)
        requires
            old(self).wf(),
            utf8_len(old(self)@.buffer) + 4 <= usize::MAX,
        ensures
            final(self).wf(),
            final(self)@ == shell_step(old(self)@, NormalizedKey::Char(c)).0,
    {
        self.save_snapshot();
        let ghost mid = self@;
        let (mut chars, k) = self.split_at_cursor();
        let ghost s = chars@;
        proof {
            lemma_len_le_bytes(s);
        }
        chars.insert(k, c);
        proof {
            let t = s.insert(k as int, c);
            assert(t =~= s.take(k as int) + seq![c] + s.skip(k as int));
            assert(s =~= s.take(k as int) + s.skip(k as int));
            lemma_utf8_len_parts(s.take(k as int), s.skip(k as int));
            lemma_utf8_len_parts(s.take(k as int) + seq![c], s.skip(k as int));
            lemma_utf8_len_parts(s.take(k as int), seq![c]);
            assert(seq![c].drop_first() =~= Seq::<char>::empty());
            assert(seq![c][0] == c);
            assert(utf8_len(Seq::<char>::empty()) == 0);
            assert(utf8_len(seq![c]) == crate::text::utf8_width(c));
        }
        self.set_text(chars, k + 1);
        proof {
            lemma_wf_keep(mid, self@);
        }
    }

    fn handle_backspace(&mut self)
        requires
            old(self).wf(),
        ensures
            final(self).wf(),
            final(self)@ == shell_step(old(self)@, NormalizedKey::Backspace).0,
    {
        self.save_snapshot();
        let ghost mid = self@;
        if self.cursor_pos > 0 {
            let (mut chars, k) = self.split_at_cursor();
            let ghost s = chars@;
            proof {
                if k == 0 {
                    assert(s.take(0) =~= Seq::<char>::empty());
                }
            }
            chars.remove(k - 1);
            proof {
                let t = s.remove(k - 1);
                assert(t =~= s.take(k - 1) + s.skip(k as int));
                assert(s =~= s.take(k - 1) + s.subrange(k - 1, k as int) + s.skip(k as int));
                lemma_utf8_len_parts(s.take(k - 1), s.skip(k as int));
                lemma_utf8_len_parts(s.take(k - 1) + s.subrange(k - 1, k as int), s.skip(k as int));
                lemma_utf8_len_parts(s.take(k - 1), s.subrange(k - 1, k as int));
                assert(t.take(k - 1) =~= s.take(k - 1));
            }
            self.set_text(chars, k - 1);
            proof {
                lemma_wf_keep(mid, self@);
            }
        }
    }

    fn handle_delete(&mut self)
        requires
            old(self).wf(),
        ensures
            final(self).wf(),
            final(self)@ == shell_step(old(self)@, NormalizedKey::Delete).0,
    {
        self.save_snapshot();
        let ghost mid = self@;
        let (mut chars, k) = self.split_at_cursor();
        let ghost s = chars@;
        let n = chars.len();
        proof {
            lemma_offset_bounds(s, k as nat, n as nat);
            assert(s.take(n as int) =~= s);
        }
        if k < n {
            chars.remove(k);
            proof {
                let t = s.remove(k as int);
                assert(t =~= s.take(k as int) + s.skip(k + 1));
                assert(s =~= s.take(k as int) + s.subrange(k as int, k + 1) + s.skip(k + 1));
                lemma_utf8_len_parts(s.take(k as int), s.skip(k + 1));
                lemma_utf8_len_parts(s.take(k as int) + s.subrange(k as int, k + 1), s.skip(k + 1));
                lemma_utf8_len_parts(s.take(k as int), s.subrange(k as int, k + 1));
                assert(t.take(k as int) =~= s.take(k as int));
                lemma_offset_bounds(s, (k + 1) as nat, n as nat);
                assert(s.take(k + 1).drop_last() =~= s.take(k as int));
                crate::text::lemma_utf8_len_push(s.take(k as int), s[k as int]);
                assert(s.take(k as int).push(s[k as int]) =~= s.take(k + 1));
            }
            self.set_text(chars, k);
            proof {
                lemma_wf_keep(mid, self@);
            }
        }
    }

    fn handle_left(&mut self)
        requires
            old(self).wf(),
        ensures
            final(self).wf(),
            final(self)@ == shell_step(old(self)@, NormalizedKey::Left).0,
    {
        if self.cursor_pos > 0 {
            let (chars, k) = self.split_at_cursor();
            proof {
                if k == 0 {
                    assert(chars@.take(0) =~= Seq::<char>::empty());
                }
                lemma_fits_offset(chars@, (k - 1) as nat);
                lemma_char_at_offset(chars@, (k - 1) as nat);
            }
            self.cursor_pos = byte_offset(chars.as_slice(), k - 1);
            proof {
                lemma_wf_keep(old(self)@, self@);
            }
        }
    }

    fn handle_right(&mut self)
        requires
            old(self).wf(),
        ensures
            final(self).wf(),
            final(self)@ == shell_step(old(self)@, NormalizedKey::Right).0,
    {
        let (chars, k) = self.split_at_cursor();
        if k < chars.len() {
            proof {
                lemma_fits_offset(chars@, (k + 1) as nat);
                lemma_char_at_offset(chars@, (k + 1) as nat);
            }
            self.cursor_pos = byte_offset(chars.as_slice(), k + 1);
            proof {
                lemma_wf_keep(old(self)@, self@);
            }
        }
    }

    fn handle_home(&mut self)
        requires
            old(self).wf(),
        ensures
            final(self).wf(),
            final(self)@ == shell_step(old(self)@, NormalizedKey::Home).0,
    {
        self.cursor_pos = 0;
        proof {
            assert(self@.buffer.take(0) =~= Seq::<char>::empty());
            lemma_char_at_offset(self@.buffer, 0);
            lemma_wf_keep(old(self)@, self@);
        }
    }

    fn handle_end(&mut self)
        requires
            old(self).wf(),
        ensures
            final(self).wf(),
            final(self)@ == shell_step(old(self)@, NormalizedKey::End).0,
    {
        let (chars, k) = self.split_at_cursor();
        proof {
            assert(chars@.take(chars@.len() as int) =~= chars@);
            lemma_char_at_offset(chars@, chars@.len());
        }
        self.cursor_pos = byte_offset(chars.as_slice(), chars.len());
        proof {
            lemma_wf_keep(old(self)@, self@);
        }
    }

    fn handle_ctrl_left(&mut self)
        requires
            old(self).wf(),
        ensures
            final(self).wf(),
            final(self)@ == shell_step(old(self)@, NormalizedKey::CtrlLeft).0,
    {
        if self.cursor_pos == 0 {
            return;
        }
        let (chars, k) = self.split_at_cursor();
        let j = word_left_index(&chars, k);
        proof {
            lemma_fits_offset(chars@, j as nat);
            lemma_char_at_offset(chars@, j as nat);
        }
        self.cursor_pos = byte_offset(chars.as_slice(), j);
        proof {
            lemma_wf_keep(old(self)@, self@);
        }
    }

    fn handle_ctrl_right(&mut self)
        requires
            old(self).wf(),
        ensures
            final(self).wf(),
            final(self)@ == shell_step(old(self)@, NormalizedKey::CtrlRight).0,
    {
        let (chars, k) = self.split_at_cursor();
        let end = byte_offset(chars.as_slice(), chars.len());
        proof {
            assert(chars@.take(chars@.len() as int) =~= chars@);
        }
        if self.cursor_pos >= end {
            return;
        }
        let j = word_right_index(&chars, k);
        proof {
            lemma_fits_offset(chars@, j as nat);
            lemma_char_at_offset(chars@, j as nat);
        }
        self.cursor_pos = byte_offset(chars.as_slice(), j);
        proof {
            lemma_wf_keep(old(self)@, self@);
        }
    }

    fn handle_ctrl_backspace(&mut self)
        requires
            old(self).wf(),
        ensures
            final(self).wf(),
            final(self)@ == shell_step(old(self)@, NormalizedKey::CtrlBackspace).0,
    {
        self.save_snapshot();
        let ghost mid = self@;
        if self.cursor_pos == 0 {
            return;
        }
        let (chars, k) = self.split_at_cursor();
        let j = word_left_index(&chars, k);
        let ghost s = chars@;
        let mut head = crate::segment::take_chars(&chars, j);
        let mut tail = crate::segment::skip_chars(&chars, k);
        head.append(&mut tail);
        proof {
            let t = s.take(j as int) + s.skip(k as int);
            assert(head@ == t);
            assert(s =~= s.take(j as int) + s.subrange(j as int, k as int) + s.skip(k as int));
            lemma_utf8_len_parts(s.take(j as int), s.skip(k as int));
            lemma_utf8_len_parts(s.take(j as int) + s.subrange(j as int, k as int), s.skip(k as int));
            lemma_utf8_len_parts(s.take(j as int), s.subrange(j as int, k as int));
            assert(t.take(j as int) =~= s.take(j as int));
        }
        proof {
            lemma_offset_bounds(s, j as nat, k as nat);
            lemma_offset_bounds(s, k as nat, s.len());
            assert(s.take(s.len() as int) =~= s);
        }
        self.set_text(head, j);
        proof {
            lemma_wf_keep(mid, self@);
        }
    }

    fn handle_ctrl_delete(&mut self)
        requires
            old(self).wf(),
        ensures
            final(self).wf(),
            final(self)@ == shell_step(old(self)@, NormalizedKey::CtrlDelete).0,
    {
        self.save_snapshot();
        let ghost mid = self@;
        let (chars, k) = self.split_at_cursor();
        let end = byte_offset(chars.as_slice(), chars.len());
        proof {
            assert(chars@.take(chars@.len() as int) =~= chars@);
        }
        if self.cursor_pos >= end {
            return;
        }
        let j = word_right_index(&chars, k);
        let ghost s = chars@;
        let mut head = crate::segment::take_chars(&chars, k);
        let mut tail = crate::segment::skip_chars(&chars, j);
        head.append(&mut tail);
        proof {
            let t = s.take(k as int) + s.skip(j as int);
            assert(head@ == t);
            assert(s =~= s.take(k as int) + s.subrange(k as int, j as int) + s.skip(j as int));
            lemma_utf8_len_parts(s.take(k as int), s.skip(j as int));
            lemma_utf8_len_parts(s.take(k as int) + s.subrange(k as int, j as int), s.skip(j as int));
            lemma_utf8_len_parts(s.take(k as int), s.subrange(k as int, j as int));
            assert(t.take(k as int) =~= s.take(k as int));
        }
        proof {
            lemma_offset_bounds(s, k as nat, j as nat);
            lemma_offset_bounds(s, j as nat, s.len());
            assert(s.take(s.len() as int) =~= s);
        }
        self.set_text(head, k);
        proof {
            lemma_wf_keep(mid, self@);
        }
    }

    fn handle_up(&mut self)
        requires
            old(self).wf(),
        ensures
            final(self).wf(),
            final(self)@ == shell_step(old(self)@, NormalizedKey::Up).0,
    {
        if self.history_index > 0 {
            if self.history_index == self.history.len() {
                self.history_draft = string_of(chars_of(self.input_buffer.as_str()).as_slice());
            }
            self.history_index = self.history_index - 1;
            let line = chars_of(self.history[self.history_index].as_str());
            proof {
                assert(texts(self.history@)[self.history_index as int] == line@);
                assert(fits(line@));
                lemma_char_at_offset(line@, line@.len());
                assert(line@.take(line@.len() as int) =~= line@);
            }
            let n = line.len();
            self.set_text(line, n);
            self.undo_stack.clear();
            self.redo_stack.clear();
            proof {
                assert(self@.undo =~= Seq::<(Seq<char>, nat)>::empty());
                assert(self@.redo =~= Seq::<(Seq<char>, nat)>::empty());
            }
        }
    }

    fn handle_down(&mut self)
        requires
            old(self).wf(),
        ensures
            final(self).wf(),
            final(self)@ == shell_step(old(self)@, NormalizedKey::Down).0,
    {
        if self.history_index < self.history.len() {
            self.history_index = self.history_index + 1;
            let line = if self.history_index == self.history.len() {
                chars_of(self.history_draft.as_str())
            } else {
                let l = chars_of(self.history[self.history_index].as_str());
                assert(texts(self.history@)[self.history_index as int] == l@);
                l
            };
            proof {
                lemma_char_at_offset(line@, line@.len());
                assert(line@.take(line@.len() as int) =~= line@);
            }
            let n = line.len();
            self.set_text(line, n);
            self.undo_stack.clear();
            self.redo_stack.clear();
            proof {
                assert(self@.undo =~= Seq::<(Seq<char>, nat)>::empty());
                assert(self@.redo =~= Seq::<(Seq<char>, nat)>::empty());
            }
        }
    }

    fn save_snapshot(&mut self)
        requires
            old(self).wf(),
        ensures
            final(self).wf(),
            final(self)@ == snapshot(old(self)@),
    {
        let current = LineState { buffer: string_of(chars_of(self.input_buffer.as_str()).as_slice()), cursor: self.cursor_pos };
        let ghost cur = (self@.buffer, self@.cursor);
        match self.undo_stack.last() {
            Some(last) => {
                proof {
                    assert(states(self.undo_stack@).last() == (last.buffer@, last.cursor as nat));
                }
                if last.cursor == current.cursor && same_text(last.buffer.as_str(), current.buffer.as_str()) {
                    return;
                }
            },
            None => {},
        }
        let ghost before = self.undo_stack@;
        self.undo_stack.push(current);
        self.redo_stack.clear();
        proof {
            assert(states(self.undo_stack@) =~= states(before).push(cur));
            assert(self@.redo =~= Seq::<(Seq<char>, nat)>::empty());
            lemma_states_push(old(self)@.undo, cur);
        }
        if self.undo_stack.len() > UNDO_DEPTH {
            let ghost full = self.undo_stack@;
            self.undo_stack.remove(0);
            proof {
                assert(states(self.undo_stack@) =~= states(full).drop_first());
            }
        }
    }

    fn handle_undo(&mut self)
        requires
            old(self).wf(),
        ensures
            final(self).wf(),
            final(self)@ == shell_step(old(self)@, NormalizedKey::Undo).0,
    {
        let ghost before_undo = self.undo_stack@;
        match self.undo_stack.pop() {
            Some(previous) => {
                let current = LineState { buffer: string_of(chars_of(self.input_buffer.as_str()).as_slice()), cursor: self.cursor_pos };
                let ghost before_redo = self.redo_stack@;
                self.redo_stack.push(current);
                proof {
                    assert(states(self.undo_stack@) =~= states(before_undo).drop_last());
                    assert(states(self.redo_stack@) =~= states(before_redo).push((old(self)@.buffer, old(self)@.cursor)));
                    assert(states(before_undo).last() == (previous.buffer@, previous.cursor as nat));
                    lemma_states_push(old(self)@.undo, (old(self)@.buffer, old(self)@.cursor));
                    lemma_states_push(old(self)@.redo, (old(self)@.buffer, old(self)@.cursor));
                    assert(state_ok(old(self)@.undo[old(self)@.undo.len() - 1]));
                }
                self.restore_state(previous);
            },
            None => {},
        }
    }

    fn handle_redo(&mut self)
        requires
            old(self).wf(),
        ensures
            final(self).wf(),
            final(self)@ == shell_step(old(self)@, NormalizedKey::Redo).0,
    {
        let ghost before_redo = self.redo_stack@;
        match self.redo_stack.pop() {
            Some(future) => {
                let current = LineState { buffer: string_of(chars_of(self.input_buffer.as_str()).as_slice()), cursor: self.cursor_pos };
                let ghost before_undo = self.undo_stack@;
                self.undo_stack.push(current);
                proof {
                    assert(states(self.redo_stack@) =~= states(before_redo).drop_last());
                    assert(states(self.undo_stack@) =~= states(before_undo).push((old(self)@.buffer, old(self)@.cursor)));
                    assert(states(before_redo).last() == (future.buffer@, future.cursor as nat));
                    lemma_states_push(old(self)@.undo, (old(self)@.buffer, old(self)@.cursor));
                    lemma_states_push(old(self)@.redo, (old(self)@.buffer, old(self)@.cursor));
                    assert(state_ok(old(self)@.redo[old(self)@.redo.len() - 1]));
                }
                self.restore_state(future);
            },
            None => {},
        }
    }

    fn restore_state(&mut self, state: LineState)
        ensures
            final(self)@ == (ShellView { buffer: state.buffer@, cursor: state.cursor as nat, ..old(self)@ }),
    {
        self.input_buffer = state.buffer;
        self.cursor_pos = state.cursor;
    }
}

/// Where Ctrl+Left lands from char index `k` of `s`.
fn word_left_index(s: &Vec<char>, k: usize) -> (r: usize)
    requires
        k <= s@.len(),
    ensures
        r == word_left(s@, k as nat),
        r <= k,
{
    let mut i = k;
    while i > 0 && is_whitespace(s[i - 1])
        invariant
            i <= k <= s@.len(),
            back_spaces(s@, k as nat) == back_spaces(s@, i as nat),
        decreases i,
    {
        i = i - 1;
    }
    let ghost mid = i;
    while i > 0 && !is_whitespace(s[i - 1])
        invariant
            i <= mid <= k <= s@.len(),
            mid == back_spaces(s@, k as nat),
            back_word(s@, mid as nat) == back_word(s@, i as nat),
        decreases i,
    {
        i = i - 1;
    }
    i
}

/// Where Ctrl+Right lands from char index `k` of `s`.
fn word_right_index(s: &Vec<char>, k: usize) -> (r: usize)
    requires
        k <= s@.len(),
    ensures
        r == word_right(s@, k as nat),
        k <= r <= s@.len(),
{
    let n = s.len();
    let mut i = k;
    while i < n && !is_whitespace(s[i])
        invariant
            n == s@.len(),
            k <= i <= n,
            fwd_word(s@, k as nat) == fwd_word(s@, i as nat),
        decreases n - i,
    {
        i = i + 1;
    }
    let ghost mid = i;
    while i < n && is_whitespace(s[i])
        invariant
            n == s@.len(),
            k <= mid <= i <= n,
            mid == fwd_word(s@, k as nat),
            fwd_spaces(s@, mid as nat) == fwd_spaces(s@, i as nat),
        decreases n - i,
    {
        i = i + 1;
    }
    i
}

/// What a native key event does to the shell's line, whatever modifiers
/// come with it unless said: Home puts the cursor at the start and End at
/// the end of the line, leaving it alone; Enter submits the line; the
/// arrows are the arrows (Left and Right with Ctrl move by word); a plain
/// char other than a line break is typed at the cursor; Delete and
/// Backspace without Ctrl are themselves.
pub proof fn law_native_keys_edit_the_shell_line(k: HostKey, v: ShellView)
    requires
        shell_wf(v),
    ensures
        k.code == HostCode::Home ==> native_key_spec(k) == Some(NormalizedKey::Home)
            && shell_step(v, NormalizedKey::Home).0 == (ShellView { cursor: 0, ..v }),
        k.code == HostCode::End ==> native_key_spec(k) == Some(NormalizedKey::End)
            && shell_step(v, NormalizedKey::End).0 == (ShellView { cursor: utf8_len(v.buffer), ..v }),
        k.code == HostCode::Enter ==> native_key_spec(k) == Some(NormalizedKey::Enter)
            && shell_step(v, NormalizedKey::Enter).1 == ActionView::Submit(v.buffer),
        k.code == HostCode::Up ==> native_key_spec(k) == Some(NormalizedKey::Up),
        k.code == HostCode::Down ==> native_key_spec(k) == Some(NormalizedKey::Down),
        k.code == HostCode::Left ==> native_key_spec(k) == Some(if k.ctrl { NormalizedKey::CtrlLeft } else { NormalizedKey::Left }),
        k.code == HostCode::Right ==> native_key_spec(k) == Some(if k.ctrl { NormalizedKey::CtrlRight } else { NormalizedKey::Right }),
        k.code == HostCode::Delete && !k.ctrl ==> native_key_spec(k) == Some(NormalizedKey::Delete),
        k.code == HostCode::Backspace && !k.ctrl && !k.alt ==> native_key_spec(k) == Some(NormalizedKey::Backspace),
        (k.code matches HostCode::Char(c) && !k.ctrl && !k.alt && c != '\r' && c != '\n')
            ==> native_key_spec(k) == Some(NormalizedKey::Char(k.code->Char_0))
            && shell_step(v, NormalizedKey::Char(k.code->Char_0)).0.buffer
                == v.buffer.insert(char_at(v.buffer, v.cursor) as int, k.code->Char_0),
{
}

} // verus!
