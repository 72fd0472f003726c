//! The line being edited: buffer, cursor, undo stack, history walk.
//!
//! Everything here is pure: no terminal, no async, no platform. A host can
//! drive a `LineEditor` from any source of [`Action`]s and read the buffer
//! back.
//!
//! The buffer is held as chars and the cursor as a char index; the public
//! `cursor` is the byte index into `buffer`, always on a char boundary.
//! Motion moves by grapheme cluster, so a combining accent and the letter it
//! sits on are one press.
//!
//! A run of insertions is one undo step, broken at whitespace, so undo takes
//! back a word rather than a letter; a run of deletions likewise. Anything
//! else (a kill, a completion, recalling history) is its own step.

use vstd::prelude::*;
use crate::history::{History, HistoryView, history_wf, idle, older_at_spec, newer_spec, push_spec};
use crate::keymap::{Action, default_table, law_default_bindings_follow_the_documented_table, lookup_spec};
use crate::key::{KeyCode, KeyPress, Mods, mods_of};
use crate::segment::{grapheme_starts, next_cluster, prev_cluster, word_end, word_start, next_grapheme, prev_grapheme, next_word, prev_word, take_chars, skip_chars, lemma_back_bounds, lemma_forward_bounds};
use crate::text::{lemma_floor_char_is_last_boundary, lemma_ceil_char_is_first_boundary, lemma_utf8_len_concat, ceil_char, floor_char, is_ws, utf8_len, byte_offset, ceil_char_index, chars_of, floor_char_index, is_whitespace, string_of};

verus! {

pub const DEFAULT_UNDO_LIMIT: usize = 128;

/// What the session must do about an applied [`Action`].
#[derive(Clone, PartialEq, Eq, Debug)]
pub enum EditOutcome {
    /// State changed; redraw.
    Continue,
    /// Nothing happened; no redraw needed.
    Ignored,
    /// The line is finished. The editor is already reset and the line
    /// recorded in history.
    Accept(String),
    /// Run the completer against the current buffer and cursor.
    Complete,
    /// Redraw from a cleared screen.
    ClearScreen,
    /// Ctrl+C: abandon the line.
    Interrupt,
    /// Ctrl+D on an empty line: end of input.
    Eof,
}

/// An [`EditOutcome`] as a value.
pub enum Outcome {
    Continue,
    Ignored,
    Accept(Seq<char>),
    Complete,
    ClearScreen,
    Interrupt,
    Eof,
}

impl View for EditOutcome {
    type V = Outcome;

    open spec fn view(&self) -> Outcome {
        match self {
            EditOutcome::Continue => Outcome::Continue,
            EditOutcome::Ignored => Outcome::Ignored,
            EditOutcome::Accept(s) => Outcome::Accept(s@),
            EditOutcome::Complete => Outcome::Complete,
            EditOutcome::ClearScreen => Outcome::ClearScreen,
            EditOutcome::Interrupt => Outcome::Interrupt,
            EditOutcome::Eof => Outcome::Eof,
        }
    }
}

/// The groups a run of edits coalesces into for undo.
#[derive(Clone, Copy, PartialEq, Eq, Debug, Structural)]
pub enum EditRun {
    Insert,
    DeleteBack,
    DeleteForward,
}

#[derive(Debug)]
struct Snapshot {
    buffer: Vec<char>,
    cursor: usize,
}

/// One line of input, mid-edit.
#[derive(Debug)]
pub struct LineEditor {
    buffer: Vec<char>,
    cursor: usize,
    undo: Vec<Snapshot>,
    redo: Vec<Snapshot>,
    undo_limit: usize,
    /// The run the last edit belonged to, or `None` if the next edit must
    /// start a new undo step.
    run: Option<EditRun>,
    history: History,
}

/// A line editor as a value. `cursor` is a char index into `buffer`.
pub struct EditorView {
    pub buffer: Seq<char>,
    pub cursor: nat,
    pub undo: Seq<(Seq<char>, nat)>,
    pub redo: Seq<(Seq<char>, nat)>,
    pub undo_limit: nat,
    pub run: Option<EditRun>,
    pub history: HistoryView,
}

spec fn snapshots(s: Seq<Snapshot>) -> Seq<(Seq<char>, nat)> {
    s.map_values(|x: Snapshot| (x.buffer@, x.cursor as nat))
}

impl View for LineEditor {
    type V = EditorView;

    closed spec fn view(&self) -> EditorView {
        EditorView {
            buffer: self.buffer@,
            cursor: self.cursor as nat,
            undo: snapshots(self.undo@),
            redo: snapshots(self.redo@),
            undo_limit: self.undo_limit as nat,
            run: self.run,
            history: self.history@,
        }
    }
}

/// Every snapshot's cursor lies within its line.
pub open spec fn snapshots_wf(s: Seq<(Seq<char>, nat)>) -> bool {
    forall|i: int| 0 <= i < s.len() ==> (#[trigger] s[i]).1 <= s[i].0.len()
}

/// A consistent editor: the cursor within the line, likewise every snapshot,
/// and a consistent history.
pub open spec fn editor_wf(v: EditorView) -> bool {
    &&& v.cursor <= v.buffer.len()
    &&& snapshots_wf(v.undo)
    &&& snapshots_wf(v.redo)
    &&& history_wf(v.history)
}

/// The newest `limit` snapshots of `u`.
pub open spec fn keep_newest(u: Seq<(Seq<char>, nat)>, limit: nat) -> Seq<(Seq<char>, nat)> {
    if u.len() > limit {
        u.skip(u.len() - limit)
    } else {
        u
    }
}

/// Snapshot for undo unless the edit continues the current run of `run`.
pub open spec fn checkpoint(v: EditorView, run: Option<EditRun>) -> EditorView {
    if run is Some && v.run == run {
        v
    } else if v.undo_limit == 0 {
        EditorView { run, ..v }
    } else {
        EditorView {
            run,
            undo: keep_newest(v.undo.push((v.buffer, v.cursor)), v.undo_limit),
            redo: Seq::empty(),
            ..v
        }
    }
}

/// Snapshot for undo, and end any history walk.
pub open spec fn begin_edit(v: EditorView, run: Option<EditRun>) -> EditorView {
    let v1 = checkpoint(v, run);
    EditorView { history: idle(v1.history), ..v1 }
}

/// Insert `c` at the cursor; whitespace ends the run of typing.
pub open spec fn insert_spec(v: EditorView, c: char) -> EditorView {
    let v1 = begin_edit(v, Some(EditRun::Insert));
    let v2 = EditorView { buffer: v1.buffer.insert(v.cursor as int, c), cursor: v.cursor + 1, ..v1 };
    if is_ws(c) {
        EditorView { run: None, ..v2 }
    } else {
        v2
    }
}

/// Delete between the cursor and `target`, leaving the cursor at the lower
/// end, as one step of `run` (or a step of its own when `run` is `None`).
pub open spec fn cut_spec(v: EditorView, target: nat, run: Option<EditRun>) -> (EditorView, Outcome) {
    if target == v.cursor {
        (v, Outcome::Ignored)
    } else {
        let v1 = begin_edit(v, run);
        let start = if target < v.cursor { target } else { v.cursor };
        let end = if target < v.cursor { v.cursor } else { target };
        (EditorView { buffer: v.buffer.take(start as int) + v.buffer.skip(end as int), cursor: start, ..v1 }, Outcome::Continue)
    }
}

/// Move the cursor to `target`, ending the run of edits.
pub open spec fn move_spec(v: EditorView, target: nat) -> (EditorView, Outcome) {
    let v1 = EditorView { run: None, ..v };
    if target == v.cursor {
        (v1, Outcome::Ignored)
    } else {
        (EditorView { cursor: target, ..v1 }, Outcome::Continue)
    }
}

/// Show a line recalled from history, as a step of its own.
pub open spec fn recall_spec(v: EditorView, line: Seq<char>) -> EditorView {
    let v1 = checkpoint(v, None);
    EditorView { buffer: line, cursor: line.len(), ..v1 }
}

/// What applying `a` does: the editor after, and what the session is told.
pub open spec fn apply_spec(v: EditorView, a: Action) -> (EditorView, Outcome) {
    match a {
        Action::Insert(c) => (insert_spec(v, c), Outcome::Continue),
        Action::Accept => {
            let v1 = EditorView {
                buffer: Seq::empty(),
                cursor: 0,
                undo: Seq::empty(),
                redo: Seq::empty(),
                run: None,
                ..v
            };
            (EditorView { history: push_spec(v.history, v.buffer), ..v1 }, Outcome::Accept(v.buffer))
        },
        Action::Complete => (v, Outcome::Complete),
        Action::MoveLeft => move_spec(v, prev_cluster(v.buffer, v.cursor)),
        Action::MoveRight => move_spec(v, next_cluster(v.buffer, v.cursor)),
        Action::MoveWordLeft => move_spec(v, word_start(v.buffer, v.cursor)),
        Action::MoveWordRight => move_spec(v, word_end(v.buffer, v.cursor)),
        Action::MoveStart => move_spec(v, 0),
        Action::MoveEnd => move_spec(v, v.buffer.len()),
        Action::HistoryPrev => {
            let (h, found) = older_at_spec(v.history, v.buffer, v.cursor as int);
            let v1 = EditorView { run: None, history: h, ..v };
            match found {
                Some(line) => (recall_spec(v1, line), Outcome::Continue),
                None => (v1, Outcome::Ignored),
            }
        },
        Action::HistoryNext => {
            let (h, found) = newer_spec(v.history);
            let v1 = EditorView { run: None, history: h, ..v };
            match found {
                Some(line) => (recall_spec(v1, line), Outcome::Continue),
                None => (v1, Outcome::Ignored),
            }
        },
        Action::DeleteBack => cut_spec(v, prev_cluster(v.buffer, v.cursor), Some(EditRun::DeleteBack)),
        Action::DeleteForward => cut_spec(v, next_cluster(v.buffer, v.cursor), Some(EditRun::DeleteForward)),
        Action::DeleteWordBack => cut_spec(v, word_start(v.buffer, v.cursor), Some(EditRun::DeleteBack)),
        Action::DeleteWordForward => cut_spec(v, word_end(v.buffer, v.cursor), Some(EditRun::DeleteForward)),
        Action::KillToStart => cut_spec(v, 0, None),
        Action::KillToEnd => cut_spec(v, v.buffer.len(), None),
        Action::Undo => if v.undo.len() == 0 {
            (v, Outcome::Ignored)
        } else {
            let previous = v.undo.last();
            (EditorView {
                buffer: previous.0,
                cursor: previous.1,
                undo: v.undo.drop_last(),
                redo: v.redo.push((v.buffer, v.cursor)),
                run: None,
                history: idle(v.history),
                ..v
            }, Outcome::Continue)
        },
        Action::Redo => if v.redo.len() == 0 {
            (v, Outcome::Ignored)
        } else {
            let next = v.redo.last();
            (EditorView {
                buffer: next.0,
                cursor: next.1,
                undo: v.undo.push((v.buffer, v.cursor)),
                redo: v.redo.drop_last(),
                run: None,
                history: idle(v.history),
                ..v
            }, Outcome::Continue)
        },
        Action::Cancel => if v.buffer.len() == 0 {
            (v, Outcome::Ignored)
        } else {
            let v1 = begin_edit(v, None);
            (EditorView { buffer: Seq::empty(), cursor: 0, ..v1 }, Outcome::Continue)
        },
        Action::ClearScreen => (v, Outcome::ClearScreen),
        Action::Interrupt => (v, Outcome::Interrupt),
        Action::Eof => if v.buffer.len() == 0 {
            (v, Outcome::Eof)
        } else {
            cut_spec(v, next_cluster(v.buffer, v.cursor), Some(EditRun::DeleteForward))
        },
        Action::Ignore => (v, Outcome::Ignored),
    }
}

/// A copy of `v`.
fn copy_chars(v: &Vec<char>) -> (r: Vec<char>)
    ensures
        r@ == v@,
{
    let r = v.clone();
    assert(r@ =~= v@);
    r
}

impl LineEditor {
    pub closed spec fn wf(&self) -> bool {
        editor_wf(self@) && self.history.wf()
    }

    /// A well-formed editor's state is one the laws below speak of.
    pub proof fn lemma_wf_state(&self)
        requires
            self.wf(),
        ensures
            editor_wf(self@),
    {
    }

    pub fn new() -> (r: Self)
        ensures
            r.wf(),
            r@.buffer == Seq::<char>::empty(),
            r@.cursor == 0,
            r@.undo == Seq::<(Seq<char>, nat)>::empty(),
            r@.redo == Seq::<(Seq<char>, nat)>::empty(),
            r@.undo_limit == DEFAULT_UNDO_LIMIT as nat,
            r@.run is None,
            r@.history == History::new_spec(),
    {
        let r = Self {
            buffer: Vec::new(),
            cursor: 0,
            undo: Vec::new(),
            redo: Vec::new(),
            undo_limit: DEFAULT_UNDO_LIMIT,
            run: None,
            history: History::new(),
        };
        assert(r@.undo =~= Seq::<(Seq<char>, nat)>::empty());
        assert(r@.redo =~= Seq::<(Seq<char>, nat)>::empty());
        r
    }

    /// The line as it stands.
    pub fn buffer(&self) -> (r: String)
        ensures
            r@ == self@.buffer,
    {
        string_of(self.buffer.as_slice())
    }

    /// The cursor as a byte index into [`buffer`](Self::buffer), always on
    /// a char boundary (saturating at `usize::MAX` on a line too long to
    /// address).
    pub fn cursor(&self) -> (r: usize)
        requires
            self.wf(),
        ensures
            r == (if utf8_len(self@.buffer.take(self@.cursor as int)) <= usize::MAX {
                utf8_len(self@.buffer.take(self@.cursor as int))
            } else {
                usize::MAX as nat
            }),
    {
        byte_offset(self.buffer.as_slice(), self.cursor)
    }

    /// The line up to the cursor.
    pub fn before_cursor(&self) -> (r: String)
        requires
            self.wf(),
        ensures
            r@ == self@.buffer.take(self@.cursor as int),
    {
        let head = take_chars(&self.buffer, self.cursor);
        string_of(head.as_slice())
    }

    pub fn is_empty(&self) -> (r: bool)
        ensures
            r == (self@.buffer.len() == 0),
    {
        self.buffer.len() == 0
    }

    pub fn history(&self) -> (r: &History)
        ensures
            r@ == self@.history,
            self.wf() ==> r.wf(),
    {
        &self.history
    }

    pub fn history_mut(&mut self) -> (r: &mut History)
        ensures
            r@ == old(self)@.history,
            old(self).wf() ==> r.wf(),
            final(self)@ == (EditorView { history: final(r)@, ..old(self)@ }),
            old(self).wf() && final(r).wf() ==> final(self).wf(),
    {
        &mut self.history
    }

    /// Keep at most `limit` undo steps. Zero disables undo.
    pub fn set_undo_limit(&mut self, limit: usize)
        requires
            old(self).wf(),
        ensures
            final(self).wf(),
            final(self)@ == (EditorView { undo_limit: limit as nat, undo: keep_newest(old(self)@.undo, limit as nat), ..old(self)@ }),
    {
        self.undo_limit = limit;
        self.trim_undo();
    }

    /// Replace the whole line, cursor to the end. One undo step.
    pub fn set_line(&mut self, text: &str)
        requires
            old(self).wf(),
        ensures
            final(self).wf(),
            final(self)@ == recall_spec(old(self)@, text@),
    {
        let chars = chars_of(text);
        self.set_recalled(chars);
    }

    /// Replace the byte range `range` with `text`, cursor to the end of what
    /// was inserted. One undo step.
    ///
    /// Used for completion. The range is clamped to the buffer and widened
    /// to char boundaries, so a completer that miscounts cannot panic the
    /// session.
    pub fn replace_range(&mut self, range: std::ops::Range<usize>, text: &str)
        requires
            old(self).wf(),
        ensures
            final(self).wf(),
            final(self)@ == replace_spec(old(self)@, range.start as int, range.end as int, text@),
    {
        let chars = chars_of(text);
        self.replace_chars(range.start, range.end, chars);
    }

    /// `replace_range` with the replacement given as chars.
    pub fn replace_chars(&mut self, start_byte: usize, end_byte: usize, text: Vec<char>)
        requires
            old(self).wf(),
        ensures
            final(self).wf(),
            final(self)@ == replace_spec(old(self)@, start_byte as int, end_byte as int, text@),
    {
        let start = floor_char_index(self.buffer.as_slice(), start_byte);
        let ceil = ceil_char_index(self.buffer.as_slice(), end_byte);
        let end = if ceil > start { ceil } else { start };
        self.checkpoint(None);
        let mut head = take_chars(&self.buffer, start);
        let mut tail = skip_chars(&self.buffer, end);
        let n = text.len();
        let mut text = text;
        head.append(&mut text);
        let cursor = head.len();
        head.append(&mut tail);
        self.buffer = head;
        self.cursor = cursor;
        assert(cursor == start + n);
    }

    /// Empty the line, keeping history and the undo stack.
    pub fn clear(&mut self)
        requires
            old(self).wf(),
        ensures
            final(self).wf(),
            final(self)@ == (EditorView { buffer: Seq::empty(), cursor: 0, ..checkpoint(old(self)@, None) }),
    {
        self.checkpoint(None);
        self.buffer.clear();
        self.cursor = 0;
    }

    /// Take the line, leaving the editor empty and its undo stack fresh.
    /// Does not record history; [`Action::Accept`] does that.
    pub fn take_buffer(&mut self) -> (r: String)
        requires
            old(self).wf(),
        ensures
            final(self).wf(),
            r@ == old(self)@.buffer,
            final(self)@ == (EditorView { buffer: Seq::empty(), cursor: 0, undo: Seq::empty(), redo: Seq::empty(), run: None, ..old(self)@ }),
    {
        let line = self.take_chars();
        string_of(line.as_slice())
    }

    fn take_chars(&mut self) -> (r: Vec<char>)
        requires
            old(self).wf(),
        ensures
            final(self).wf(),
            r@ == old(self)@.buffer,
            final(self)@ == (EditorView { buffer: Seq::empty(), cursor: 0, undo: Seq::empty(), redo: Seq::empty(), run: None, ..old(self)@ }),
    {
        self.cursor = 0;
        self.undo.clear();
        self.redo.clear();
        self.run = None;
        let mut line: Vec<char> = Vec::new();
        std::mem::swap(&mut line, &mut self.buffer);
        proof {
            assert(self@.undo =~= Seq::<(Seq<char>, nat)>::empty());
            assert(self@.redo =~= Seq::<(Seq<char>, nat)>::empty());
            assert(self@.buffer =~= Seq::<char>::empty());
        }
        line
    }

    /// Apply one action. The single dispatch point for editing.
    pub fn apply(&mut self, action: Action) -> (r: EditOutcome)
        requires
            old(self).wf(),
        ensures
            final(self).wf(),
            (final(self)@, r@) == apply_spec(old(self)@, action),
    {
        match action {
            Action::Insert(c) => {
                self.insert(c);
                EditOutcome::Continue
            },
            Action::Accept => {
                let line = self.take_chars();
                let text = string_of(line.as_slice());
                self.history.push_chars(line);
                EditOutcome::Accept(text)
            },
            Action::Complete => EditOutcome::Complete,
            Action::MoveLeft => {
                let target = prev_grapheme(&self.buffer, self.cursor);
                self.move_to(target)
            },
            Action::MoveRight => {
                let target = next_grapheme(&self.buffer, self.cursor);
                self.move_to(target)
            },
            Action::MoveWordLeft => {
                let target = prev_word(&self.buffer, self.cursor);
                self.move_to(target)
            },
            Action::MoveWordRight => {
                let target = next_word(&self.buffer, self.cursor);
                self.move_to(target)
            },
            Action::MoveStart => self.move_to(0),
            Action::MoveEnd => {
                let end = self.buffer.len();
                self.move_to(end)
            },
            Action::HistoryPrev => {
                self.run = None;
                match self.history.older_at(&self.buffer, self.cursor) {
                    Some(line) => {
                        self.set_recalled(line);
                        EditOutcome::Continue
                    },
                    None => EditOutcome::Ignored,
                }
            },
            Action::HistoryNext => {
                self.run = None;
                match self.history.newer_chars() {
                    Some(line) => {
                        self.set_recalled(line);
                        EditOutcome::Continue
                    },
                    None => EditOutcome::Ignored,
                }
            },
            Action::DeleteBack => {
                let target = prev_grapheme(&self.buffer, self.cursor);
                self.cut(target, Some(EditRun::DeleteBack))
            },
            Action::DeleteForward => {
                let target = next_grapheme(&self.buffer, self.cursor);
                self.cut(target, Some(EditRun::DeleteForward))
            },
            Action::DeleteWordBack => {
                let target = prev_word(&self.buffer, self.cursor);
                self.cut(target, Some(EditRun::DeleteBack))
            },
            Action::DeleteWordForward => {
                let target = next_word(&self.buffer, self.cursor);
                self.cut(target, Some(EditRun::DeleteForward))
            },
            Action::KillToStart => self.cut(0, None),
            Action::KillToEnd => {
                let end = self.buffer.len();
                self.cut(end, None)
            },
            Action::Undo => {
                if self.undo_step() {
                    EditOutcome::Continue
                } else {
                    EditOutcome::Ignored
                }
            },
            Action::Redo => {
                if self.redo_step() {
                    EditOutcome::Continue
                } else {
                    EditOutcome::Ignored
                }
            },
            Action::Cancel => {
                if self.buffer.len() == 0 {
                    EditOutcome::Ignored
                } else {
                    self.begin_edit(None);
                    self.buffer.clear();
                    self.cursor = 0;
                    EditOutcome::Continue
                }
            },
            Action::ClearScreen => EditOutcome::ClearScreen,
            Action::Interrupt => EditOutcome::Interrupt,
            // Readline's rule: end of input only on an empty line, so
            // Ctrl+D mid-line is the forward delete it is everywhere else.
            Action::Eof => {
                if self.buffer.len() == 0 {
                    EditOutcome::Eof
                } else {
                    let target = next_grapheme(&self.buffer, self.cursor);
                    self.cut(target, Some(EditRun::DeleteForward))
                }
            },
            Action::Ignore => EditOutcome::Ignored,
        }
    }

    fn insert(&mut self, c: char)
        requires
            old(self).wf(),
        ensures
            final(self).wf(),
            final(self)@ == insert_spec(old(self)@, c),
    {
        self.begin_edit(Some(EditRun::Insert));
        self.buffer.insert(self.cursor, c);
        let n = self.buffer.len();
        assert(self.cursor < n);
        self.cursor = self.cursor + 1;
        // Break the run at whitespace so undo takes back a word at a time.
        if is_whitespace(c) {
            self.run = None;
        }
    }

    /// Delete between the cursor and `target`, in whichever direction that
    /// is, and leave the cursor at the lower end.
    fn cut(&mut self, target: usize, run: Option<EditRun>) -> (r: EditOutcome)
        requires
            old(self).wf(),
            target <= old(self)@.buffer.len(),
        ensures
            final(self).wf(),
            (final(self)@, r@) == cut_spec(old(self)@, target as nat, run),
    {
        if target == self.cursor {
            return EditOutcome::Ignored;
        }
        self.begin_edit(run);
        let start = if target < self.cursor { target } else { self.cursor };
        let end = if target < self.cursor { self.cursor } else { target };
        let mut head = take_chars(&self.buffer, start);
        let mut tail = skip_chars(&self.buffer, end);
        head.append(&mut tail);
        self.buffer = head;
        self.cursor = start;
        EditOutcome::Continue
    }

    fn move_to(&mut self, target: usize) -> (r: EditOutcome)
        requires
            old(self).wf(),
            target <= old(self)@.buffer.len(),
        ensures
            final(self).wf(),
            (final(self)@, r@) == move_spec(old(self)@, target as nat),
    {
        self.run = None;
        if target == self.cursor {
            return EditOutcome::Ignored;
        }
        self.cursor = target;
        EditOutcome::Continue
    }

    /// Install a line recalled from history without ending the walk that
    /// produced it.
    fn set_recalled(&mut self, line: Vec<char>)
        requires
            old(self).wf(),
        ensures
            final(self).wf(),
            final(self)@ == recall_spec(old(self)@, line@),
    {
        self.checkpoint(None);
        self.cursor = line.len();
        self.buffer = line;
    }

    /// Snapshot for undo, and end any history walk.
    fn begin_edit(&mut self, run: Option<EditRun>)
        requires
            old(self).wf(),
        ensures
            final(self).wf(),
            final(self)@ == begin_edit(old(self)@, run),
    {
        self.checkpoint(run);
        self.history.end_navigation();
    }

    fn checkpoint(&mut self, run: Option<EditRun>)
        requires
            old(self).wf(),
        ensures
            final(self).wf(),
            final(self)@ == checkpoint(old(self)@, run),
    {
        if run.is_some() && self.run == run {
            return;
        }
        self.run = run;
        if self.undo_limit == 0 {
            return;
        }
        let ghost before = self@;
        let snapshot = Snapshot { buffer: copy_chars(&self.buffer), cursor: self.cursor };
        self.undo.push(snapshot);
        self.redo.clear();
        proof {
            assert(snapshots(self.undo@) =~= before.undo.push((before.buffer, before.cursor)));
            assert(snapshots(self.redo@) =~= Seq::<(Seq<char>, nat)>::empty());
        }
        self.trim_undo();
    }

    fn undo_step(&mut self) -> (r: bool)
        requires
            old(self).wf(),
        ensures
            final(self).wf(),
            r == (old(self)@.undo.len() > 0),
            (final(self)@, if r { Outcome::Continue } else { Outcome::Ignored }) == apply_spec(old(self)@, Action::Undo),
    {
        let ghost before = self@;
        let previous = match self.undo.pop() {
            Some(p) => p,
            None => return false,
        };
        let mut current: Vec<char> = Vec::new();
        std::mem::swap(&mut current, &mut self.buffer);
        self.redo.push(Snapshot { buffer: current, cursor: self.cursor });
        self.buffer = previous.buffer;
        self.cursor = previous.cursor;
        self.run = None;
        self.history.end_navigation();
        proof {
            assert(snapshots(self.undo@) =~= before.undo.drop_last());
            assert(snapshots(self.redo@) =~= before.redo.push((before.buffer, before.cursor)));
            assert(before.undo.last() == (previous.buffer@, previous.cursor as nat));
        }
        true
    }

    fn redo_step(&mut self) -> (r: bool)
        requires
            old(self).wf(),
        ensures
            final(self).wf(),
            r == (old(self)@.redo.len() > 0),
            (final(self)@, if r { Outcome::Continue } else { Outcome::Ignored }) == apply_spec(old(self)@, Action::Redo),
    {
        let ghost before = self@;
        let next = match self.redo.pop() {
            Some(p) => p,
            None => return false,
        };
        let mut current: Vec<char> = Vec::new();
        std::mem::swap(&mut current, &mut self.buffer);
        self.undo.push(Snapshot { buffer: current, cursor: self.cursor });
        self.buffer = next.buffer;
        self.cursor = next.cursor;
        self.run = None;
        self.history.end_navigation();
        proof {
            assert(snapshots(self.redo@) =~= before.redo.drop_last());
            assert(snapshots(self.undo@) =~= before.undo.push((before.buffer, before.cursor)));
            assert(before.redo.last() == (next.buffer@, next.cursor as nat));
        }
        true
    }

    fn trim_undo(&mut self)
        requires
            editor_wf(old(self)@),
        ensures
            editor_wf(final(self)@),
            final(self)@ == (EditorView { undo: keep_newest(old(self)@.undo, old(self)@.undo_limit), ..old(self)@ }),
    {
        let ghost before = self@;
        if self.undo.len() > self.undo_limit {
            let drop = self.undo.len() - self.undo_limit;
            let kept = self.undo.split_off(drop);
            self.undo = kept;
            proof {
                assert(snapshots(self.undo@) =~= before.undo.skip(drop as int));
            }
        }
    }
}

/// What `replace_range` does: the byte range is widened to char boundaries
/// and clamped to the line, then replaced by `text` as one undo step, with
/// the cursor after what was inserted.
pub open spec fn replace_spec(v: EditorView, start_byte: int, end_byte: int, text: Seq<char>) -> EditorView {
    let start = floor_char(v.buffer, start_byte);
    let end = if ceil_char(v.buffer, end_byte) > start { ceil_char(v.buffer, end_byte) } else { start };
    let v1 = checkpoint(v, None);
    EditorView {
        buffer: v.buffer.take(start as int) + text + v.buffer.skip(end as int),
        cursor: start + text.len(),
        ..v1
    }
}


/// Undo then redo puts the line, the cursor and both stacks back as they
/// were; only the undo run and any history walk are ended.
pub proof fn law_undo_then_redo(v: EditorView)
    requires
        editor_wf(v),
        v.undo.len() > 0,
    ensures
        apply_spec(v, Action::Undo).1 == Outcome::Continue,
        apply_spec(apply_spec(v, Action::Undo).0, Action::Redo).0 == (EditorView {
            run: None,
            history: idle(v.history),
            ..v
        }),
{
    let v1 = apply_spec(v, Action::Undo).0;
    assert(v1.redo.last() == (v.buffer, v.cursor));
    assert(v1.undo.push((v1.buffer, v1.cursor)) =~= v.undo);
    assert(v1.redo.drop_last() =~= v.redo);
    assert(idle(idle(v.history)) == idle(v.history));
}

/// Redo then undo puts the line, the cursor and both stacks back as they
/// were; only the undo run and any history walk are ended.
pub proof fn law_redo_then_undo(v: EditorView)
    requires
        editor_wf(v),
        v.redo.len() > 0,
    ensures
        apply_spec(v, Action::Redo).1 == Outcome::Continue,
        apply_spec(apply_spec(v, Action::Redo).0, Action::Undo).0 == (EditorView {
            run: None,
            history: idle(v.history),
            ..v
        }),
{
    let v1 = apply_spec(v, Action::Redo).0;
    assert(v1.undo.last() == (v.buffer, v.cursor));
    assert(v1.redo.push((v1.buffer, v1.cursor)) =~= v.redo);
    assert(v1.undo.drop_last() =~= v.undo);
    assert(idle(idle(v.history)) == idle(v.history));
}

/// The snapshot pushed last survives trimming to any positive limit.
proof fn lemma_keep_newest_last(u: Seq<(Seq<char>, nat)>, x: (Seq<char>, nat), limit: nat)
    requires
        limit > 0,
    ensures
        keep_newest(u.push(x), limit).len() > 0,
        keep_newest(u.push(x), limit).last() == x,
{
}

/// Typing that starts a new undo step is taken back whole by one undo: the
/// line and the cursor are as they were before it.
pub proof fn law_undo_takes_back_typing(v: EditorView, c: char)
    requires
        editor_wf(v),
        v.undo_limit > 0,
        v.run != Some(EditRun::Insert),
    ensures
        apply_spec(apply_spec(v, Action::Insert(c)).0, Action::Undo).0.buffer == v.buffer,
        apply_spec(apply_spec(v, Action::Insert(c)).0, Action::Undo).0.cursor == v.cursor,
{
    lemma_keep_newest_last(v.undo, (v.buffer, v.cursor), v.undo_limit);
}

/// Clearing a non-empty line with Escape is undoable: one undo brings the
/// line and the cursor back.
pub proof fn law_cancel_is_undoable(v: EditorView)
    requires
        editor_wf(v),
        v.undo_limit > 0,
        v.buffer.len() > 0,
    ensures
        apply_spec(v, Action::Cancel).1 == Outcome::Continue,
        apply_spec(v, Action::Cancel).0.buffer.len() == 0,
        apply_spec(apply_spec(v, Action::Cancel).0, Action::Undo).0.buffer == v.buffer,
        apply_spec(apply_spec(v, Action::Cancel).0, Action::Undo).0.cursor == v.cursor,
{
    lemma_keep_newest_last(v.undo, (v.buffer, v.cursor), v.undo_limit);
}

/// Deleting or moving past an edge of the line does nothing.
pub proof fn law_edges_are_ignored(v: EditorView)
    requires
        editor_wf(v),
    ensures
        v.cursor == 0 ==> apply_spec(v, Action::DeleteBack) == (v, Outcome::Ignored),
        v.cursor == 0 ==> apply_spec(v, Action::MoveLeft).1 == Outcome::Ignored,
        v.cursor == v.buffer.len() ==> apply_spec(v, Action::DeleteForward) == (v, Outcome::Ignored),
        v.cursor == v.buffer.len() ==> apply_spec(v, Action::MoveRight).1 == Outcome::Ignored,
{
    let prefix = v.buffer.take(0);
    assert(prefix.len() == 0);
    assert(prev_cluster(v.buffer, 0) == 0);
    let suffix = v.buffer.skip(v.buffer.len() as int);
    assert(suffix.len() == 0);
    assert(next_cluster(v.buffer, v.buffer.len()) == v.buffer.len());
}

/// Ctrl+D ends input exactly on an empty line; anywhere else it edits.
pub proof fn law_eof_only_on_an_empty_line(v: EditorView)
    requires
        editor_wf(v),
    ensures
        (apply_spec(v, Action::Eof).1 == Outcome::Eof) == (v.buffer.len() == 0),
{
}

/// The undo and redo stacks together hold no more steps than the limit.
pub open spec fn undo_bounded(v: EditorView) -> bool {
    v.undo.len() + v.redo.len() <= v.undo_limit
}

/// Keeping the newest `limit` snapshots keeps no more than `limit`.
pub proof fn lemma_keep_newest_len(u: Seq<(Seq<char>, nat)>, limit: nat)
    ensures
        keep_newest(u, limit).len() <= limit,
        keep_newest(u, limit).len() <= u.len(),
{
}

/// A checkpoint keeps the stacks within the limit.
proof fn lemma_checkpoint_bounded(v: EditorView, run: Option<EditRun>)
    requires
        undo_bounded(v),
    ensures
        undo_bounded(checkpoint(v, run)),
        checkpoint(v, run).undo_limit == v.undo_limit,
{
    lemma_keep_newest_len(v.undo.push((v.buffer, v.cursor)), v.undo_limit);
}

/// No action takes the stacks past the limit.
#[verifier::rlimit(40)]
proof fn lemma_apply_bounded(v: EditorView, a: Action)
    requires
        undo_bounded(v),
    ensures
        undo_bounded(apply_spec(v, a).0),
        apply_spec(v, a).0.undo_limit == v.undo_limit,
{
    match a {
        Action::Insert(c) => {
            lemma_checkpoint_bounded(v, Some(EditRun::Insert));
        },
        Action::HistoryPrev => {
            let (h, found) = older_at_spec(v.history, v.buffer, v.cursor as int);
            lemma_checkpoint_bounded(EditorView { run: None, history: h, ..v }, None);
        },
        Action::HistoryNext => {
            let (h, found) = newer_spec(v.history);
            lemma_checkpoint_bounded(EditorView { run: None, history: h, ..v }, None);
        },
        Action::DeleteBack | Action::DeleteWordBack => {
            lemma_checkpoint_bounded(v, Some(EditRun::DeleteBack));
        },
        Action::DeleteForward | Action::DeleteWordForward => {
            lemma_checkpoint_bounded(v, Some(EditRun::DeleteForward));
        },
        _ => {
            lemma_checkpoint_bounded(v, None);
        },
    }
}

/// The undo limit bounds how far back undo reaches: no action takes the
/// stacks past it, and each undo that does anything uses up one step, so
/// from an editor whose stacks are within the limit (a new one, or one
/// whose limit was just set with nothing to redo) no more than `undo_limit`
/// undos in a row do anything.
pub proof fn law_undo_stays_within_limit(v: EditorView, a: Action)
    requires
        undo_bounded(v),
    ensures
        undo_bounded(apply_spec(v, a).0),
        apply_spec(v, a).0.undo_limit == v.undo_limit,
        v.undo.len() <= v.undo_limit,
        apply_spec(v, Action::Undo).1 == Outcome::Continue ==> apply_spec(v, Action::Undo).0.undo.len() + 1 == v.undo.len(),
        v.undo.len() == 0 ==> apply_spec(v, Action::Undo).1 == Outcome::Ignored,
{
    lemma_apply_bounded(v, a);
}

/// A new editor's stacks are empty, and setting a limit on an editor with
/// nothing to redo leaves its stacks within that limit.
pub proof fn law_setting_the_limit_bounds_undo(v: EditorView, limit: nat)
    requires
        v.redo.len() == 0,
    ensures
        undo_bounded(EditorView { undo_limit: limit, undo: keep_newest(v.undo, limit), ..v }),
{
    lemma_keep_newest_len(v.undo, limit);
}

/// `replace_range` at the level of bytes: the range starts at the last
/// char boundary at or before its start, and ends at the first boundary at
/// or after its end (the end of the line when the end lies past it), but
/// never before it starts; what lies between is replaced by `text`, and the
/// cursor lands just after it, `text` bytes past the start.
pub proof fn law_replace_range_in_bytes(v: EditorView, start_byte: int, end_byte: int, text: Seq<char>)
    requires
        0 <= start_byte,
    ensures
        ({
            let b = v.buffer;
            let v1 = replace_spec(v, start_byte, end_byte, text);
            let s = floor_char(b, start_byte) as int;
            let c = ceil_char(b, end_byte) as int;
            let t = if c > s { c } else { s };
            &&& s <= b.len()
            &&& utf8_len(b.take(s)) <= start_byte
            &&& s < b.len() ==> utf8_len(b.take(s + 1)) > start_byte
            &&& s <= t <= b.len()
            &&& v1.buffer == b.take(s) + text + b.skip(t)
            &&& t == s || (utf8_len(b.take(t - 1)) < end_byte && (t < b.len() ==> utf8_len(b.take(t)) >= end_byte))
            &&& v1.cursor == s + text.len()
            &&& utf8_len(v1.buffer.take(v1.cursor as int)) == utf8_len(b.take(s)) + utf8_len(text)
        }),
{
    let b = v.buffer;
    lemma_floor_char_is_last_boundary(b, start_byte);
    lemma_ceil_char_is_first_boundary(b, end_byte);
    let s = floor_char(b, start_byte) as int;
    let c = ceil_char(b, end_byte) as int;
    let t = if c > s { c } else { s };
    let v1 = replace_spec(v, start_byte, end_byte, text);
    assert(v1.buffer.len() == s + text.len() + (b.len() - t));
    assert(v1.buffer.take(v1.cursor as int) =~= b.take(s) + text);
    lemma_utf8_len_concat(b.take(s), text);
}

/// `set_line` is one undo step: the line becomes `text` with the cursor at
/// its end, and a single undo brings back the line and cursor it replaced
/// (with undo on at all).
pub proof fn law_set_line_is_one_step(v: EditorView, text: Seq<char>)
    requires
        editor_wf(v),
        v.undo_limit > 0,
    ensures
        recall_spec(v, text).buffer == text,
        recall_spec(v, text).cursor == text.len(),
        apply_spec(recall_spec(v, text), Action::Undo).1 == Outcome::Continue,
        apply_spec(recall_spec(v, text), Action::Undo).0.buffer == v.buffer,
        apply_spec(recall_spec(v, text), Action::Undo).0.cursor == v.cursor,
{
    let u = v.undo.push((v.buffer, v.cursor));
    let k = keep_newest(u, v.undo_limit);
    if u.len() > v.undo_limit {
        assert(k.last() == u.last());
    }
    assert(k.len() > 0);
    assert(k.last() == (v.buffer, v.cursor));
}

/// One of the calls that edit a line: `apply`, `set_line`,
/// `replace_range` (by bytes), `clear` or `take_buffer`.
pub enum EditCall {
    Apply(Action),
    SetLine(Seq<char>),
    Replace(int, int, Seq<char>),
    Clear,
    Take,
}

/// The editor after `call`, as that call's contract gives it.
pub open spec fn call_spec(v: EditorView, call: EditCall) -> EditorView {
    match call {
        EditCall::Apply(a) => apply_spec(v, a).0,
        EditCall::SetLine(text) => recall_spec(v, text),
        EditCall::Replace(start, end, text) => replace_spec(v, start, end, text),
        EditCall::Clear => EditorView { buffer: Seq::empty(), cursor: 0, ..checkpoint(v, None) },
        EditCall::Take => EditorView { buffer: Seq::empty(), cursor: 0, undo: Seq::empty(), redo: Seq::empty(), run: None, ..v },
    }
}

/// The editor after each of `calls` in turn.
pub open spec fn calls_spec(v: EditorView, calls: Seq<EditCall>) -> EditorView
    decreases calls.len(),
{
    if calls.len() == 0 {
        v
    } else {
        call_spec(calls_spec(v, calls.drop_last()), calls.last())
    }
}

/// Whether `k` undos in a row from `v` each do something.
pub open spec fn undos_continue(v: EditorView, k: nat) -> bool
    decreases k,
{
    if k == 0 {
        true
    } else {
        apply_spec(v, Action::Undo).1 == Outcome::Continue && undos_continue(apply_spec(v, Action::Undo).0, (k - 1) as nat)
    }
}

/// No editing call takes the stacks past the limit, or changes it.
proof fn lemma_call_bounded(v: EditorView, call: EditCall)
    requires
        undo_bounded(v),
    ensures
        undo_bounded(call_spec(v, call)),
        call_spec(v, call).undo_limit == v.undo_limit,
{
    match call {
        EditCall::Apply(a) => {
            lemma_apply_bounded(v, a);
        },
        _ => {
            lemma_checkpoint_bounded(v, None);
        },
    }
}

proof fn lemma_calls_bounded(v: EditorView, calls: Seq<EditCall>)
    requires
        undo_bounded(v),
    ensures
        undo_bounded(calls_spec(v, calls)),
        calls_spec(v, calls).undo_limit == v.undo_limit,
    decreases calls.len(),
{
    if calls.len() > 0 {
        lemma_calls_bounded(v, calls.drop_last());
        lemma_call_bounded(calls_spec(v, calls.drop_last()), calls.last());
    }
}

/// Each undo that does something uses up one step of the undo stack.
proof fn lemma_undos_use_up_the_stack(v: EditorView, k: nat)
    requires
        undos_continue(v, k),
    ensures
        k <= v.undo.len(),
    decreases k,
{
    if k > 0 {
        lemma_undos_use_up_the_stack(apply_spec(v, Action::Undo).0, (k - 1) as nat);
    }
}

/// The undo limit over a whole session of editing: set the limit on an
/// editor with nothing to redo (a new one, say), make any calls of
/// `apply`, `set_line`, `replace_range`, `clear` and `take_buffer`, and no
/// more than `limit` undos in a row then do anything. A zero limit turns
/// undo off.
pub proof fn law_undo_limit_bounds_any_run_of_undos(v: EditorView, limit: nat, calls: Seq<EditCall>, k: nat)
    requires
        v.redo.len() == 0,
        undos_continue(
            calls_spec(EditorView { undo_limit: limit, undo: keep_newest(v.undo, limit), ..v }, calls),
            k,
        ),
    ensures
        k <= limit,
{
    let v0 = EditorView { undo_limit: limit, undo: keep_newest(v.undo, limit), ..v };
    law_setting_the_limit_bounds_undo(v, limit);
    lemma_calls_bounded(v0, calls);
    lemma_undos_use_up_the_stack(calls_spec(v0, calls), k);
}

/// What the line-editing actions do to the line, in terms of the line and
/// the cursor alone: Ctrl+U drops everything before the cursor, Ctrl+K
/// everything after it; Home and End put the cursor at the ends; word
/// motion goes the way it says; deleting a word takes text on the side it
/// says and no other; typing a char puts it at the cursor and steps past it.
/// None of the motions changes the line.
pub proof fn law_line_editing_actions(v: EditorView, c: char)
    requires
        editor_wf(v),
    ensures
        apply_spec(v, Action::KillToStart).0.buffer == v.buffer.skip(v.cursor as int),
        apply_spec(v, Action::KillToStart).0.cursor == 0,
        apply_spec(v, Action::KillToEnd).0.buffer == v.buffer.take(v.cursor as int),
        apply_spec(v, Action::KillToEnd).0.cursor == v.cursor,
        apply_spec(v, Action::MoveStart).0.cursor == 0,
        apply_spec(v, Action::MoveEnd).0.cursor == v.buffer.len(),
        apply_spec(v, Action::MoveStart).0.buffer == v.buffer,
        apply_spec(v, Action::MoveEnd).0.buffer == v.buffer,
        apply_spec(v, Action::MoveWordLeft).0.cursor <= v.cursor,
        apply_spec(v, Action::MoveWordRight).0.cursor >= v.cursor,
        apply_spec(v, Action::MoveWordLeft).0.buffer == v.buffer,
        apply_spec(v, Action::MoveWordRight).0.buffer == v.buffer,
        ({
            let w = apply_spec(v, Action::DeleteWordBack).0;
            &&& w.cursor <= v.cursor
            &&& w.buffer == v.buffer.take(w.cursor as int) + v.buffer.skip(v.cursor as int)
        }),
        ({
            let w = apply_spec(v, Action::DeleteWordForward).0;
            &&& w.cursor == v.cursor
            &&& exists|j: int| v.cursor <= j <= v.buffer.len()
                && w.buffer == v.buffer.take(v.cursor as int) + v.buffer.skip(j)
        }),
        apply_spec(v, Action::Insert(c)).0.buffer == v.buffer.insert(v.cursor as int, c),
        apply_spec(v, Action::Insert(c)).0.cursor == v.cursor + 1,
{
    lemma_back_bounds(v.buffer, v.cursor);
    lemma_forward_bounds(v.buffer, v.cursor);
    let j = word_end(v.buffer, v.cursor) as int;
    assert(v.buffer.take(0) + v.buffer.skip(v.cursor as int) =~= v.buffer.skip(v.cursor as int));
    assert(v.buffer.take(v.cursor as int) + v.buffer.skip(v.buffer.len() as int) =~= v.buffer.take(v.cursor as int));
    if j == v.cursor {
        assert(v.buffer.take(v.cursor as int) + v.buffer.skip(v.cursor as int) =~= v.buffer);
    }
}

/// In a session with the default keys, on any line: Ctrl+A and Home put
/// the cursor at the start, Ctrl+E and End at the end, without touching
/// the line; Ctrl+U drops everything before the cursor and Ctrl+K
/// everything after it (the letter in either case, Shift or not).
pub proof fn law_default_keys_edit_the_line(v: EditorView, shift: bool)
    requires
        editor_wf(v),
    ensures
        ({
            let ctrl = mods_of(shift, false, true);
            let press = |c: char| KeyPress { code: KeyCode::Char(c), mods: ctrl };
            let after = |k: KeyPress| apply_spec(v, lookup_spec(default_table(), k)).0;
            &&& after(press('a')).cursor == 0 && after(press('a')).buffer == v.buffer
            &&& after(press('A')).cursor == 0 && after(press('A')).buffer == v.buffer
            &&& after(KeyPress { code: KeyCode::Home, mods: Mods::NONE }).cursor == 0
            &&& after(KeyPress { code: KeyCode::Home, mods: Mods::NONE }).buffer == v.buffer
            &&& after(press('e')).cursor == v.buffer.len() && after(press('e')).buffer == v.buffer
            &&& after(press('E')).cursor == v.buffer.len() && after(press('E')).buffer == v.buffer
            &&& after(KeyPress { code: KeyCode::End, mods: Mods::NONE }).cursor == v.buffer.len()
            &&& after(KeyPress { code: KeyCode::End, mods: Mods::NONE }).buffer == v.buffer
            &&& after(press('u')).buffer == v.buffer.skip(v.cursor as int) && after(press('u')).cursor == 0
            &&& after(press('U')).buffer == v.buffer.skip(v.cursor as int) && after(press('U')).cursor == 0
            &&& after(press('k')).buffer == v.buffer.take(v.cursor as int) && after(press('k')).cursor == v.cursor
            &&& after(press('K')).buffer == v.buffer.take(v.cursor as int) && after(press('K')).cursor == v.cursor
        }),
{
    law_default_bindings_follow_the_documented_table(shift);
    law_line_editing_actions(v, ' ');
}

} // verus!
