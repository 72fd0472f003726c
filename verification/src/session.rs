//! The prompt: a terminal, an editor, and the decisions between them.
//!
//! A read either edits, where the terminal delivers keys, or waits for a
//! finished line, where it does not. Each event that arrives is handed to
//! [`Session::edit_event`] or [`Session::line_event`], which update the
//! editor and renderer and say what to write and whether the read is over.
//! The host's loop performs the writes; [`Session::read_line`] is that loop
//! for the in-memory terminal.

use vstd::prelude::*;
use std::borrow::Cow;
use crate::editor::{EditOutcome, EditorView, LineEditor, Outcome, apply_spec, replace_spec};
use crate::extend::{Completer, Completion, Highlighter, NoCompleter, NoHighlighter, common_prefix_spec, views};
use crate::history::{History, HistoryView, idle, push_spec};
use crate::key::KeyPress;
use crate::keymap::{Action, Keymap, default_table, lookup_spec};
use crate::render::{Renderer, RendererView, finish_spec, forgotten, frame_spec, rewind_spec};
use crate::style::{display_width, escape_free, law_strip_is_idempotent, sat, strip, strip_spec, width_spec};
use crate::term::{Capabilities, Event, EventView, Result, Size, Terminal};
use crate::term::mem::{MemTerminal, MemView};
use crate::text::{byte_offset, chars_of, decimal, push_decimal, string_of, utf8_len};

verus! {

pub const DEFAULT_PROMPT: &'static str = "> ";

/// How many completion candidates to print before saying how many are left.
pub const DEFAULT_COMPLETION_LIST_LIMIT: usize = 200;

/// What `ESC [ H ESC [ 2 J` does: home the cursor and clear the screen.
pub const CLEAR_SCREEN: &'static str = "\x1b[H\x1b[2J";

/// The result of asking for one line.
#[derive(Clone, PartialEq, Eq, Debug)]
pub enum ReadOutcome {
    /// The line, without its newline. Already recorded in history.
    Line(String),
    /// Ctrl+C: the line was abandoned, the session is still good.
    Interrupted,
    /// End of input: Ctrl+D on an empty line, or the terminal closed.
    Eof,
}

/// A [`ReadOutcome`] as a value.
pub enum ReadView {
    Line(Seq<char>),
    Interrupted,
    Eof,
}

impl View for ReadOutcome {
    type V = ReadView;

    open spec fn view(&self) -> ReadView {
        match self {
            ReadOutcome::Line(s) => ReadView::Line(s@),
            ReadOutcome::Interrupted => ReadView::Interrupted,
            ReadOutcome::Eof => ReadView::Eof,
        }
    }
}

/// What one event while editing came to.
#[derive(Debug)]
pub struct Step {
    /// The text to write to the terminal, then flush.
    pub output: String,
    /// The read is over, with this outcome.
    pub outcome: Option<ReadOutcome>,
    /// The terminal went away: writing `output` is a courtesy to a screen a
    /// human may still read, and a failure to write it is not an error.
    pub best_effort: bool,
}

/// A prompt bound to a terminal.
pub struct Session<T> {
    term: T,
    editor: LineEditor,
    renderer: Renderer,
    keymap: Keymap,
    completer: Box<dyn Completer>,
    highlighter: Box<dyn Highlighter>,
    prompt: String,
    completion_list_limit: usize,
}

/// A session's state as a value (the terminal apart).
pub struct SessionView {
    pub editor: EditorView,
    pub renderer: RendererView,
    pub keymap: Map<KeyPress, Action>,
    pub prompt: Seq<char>,
    pub completion_list_limit: nat,
}

impl<T> View for Session<T> {
    type V = SessionView;

    closed spec fn view(&self) -> SessionView {
        SessionView {
            editor: self.editor@,
            renderer: self.renderer@,
            keymap: self.keymap@,
            prompt: self.prompt@,
            completion_list_limit: self.completion_list_limit as nat,
        }
    }
}

/// Where the cursor goes, in cells after the prompt: after the text before
/// it, or, when a suffix is drawn after the line, after the suffix.
pub open spec fn cursor_cells(before_cursor: Seq<char>, line: Seq<char>, suffix: Seq<char>) -> nat {
    if suffix.len() == 0 {
        width_spec(before_cursor)
    } else {
        sat(width_spec(line) + width_spec(suffix))
    }
}

/// Drawing prompt `prompt` and the line as highlighted to `line`, with
/// `suffix` after it, from renderer state `r` with editor `e`.
pub open spec fn drawn(r: RendererView, e: EditorView, prompt: Seq<char>, line: Seq<char>, suffix: Seq<char>) -> (RendererView, Seq<char>) {
    frame_spec(r, prompt, line + suffix, cursor_cells(e.buffer.take(e.cursor as int), line, suffix))
}

/// `out` redraws the line of `e` from `r`, leaving `r1`. The prompt
/// `prompt` is drawn stripped of its escapes where `plain` (a terminal that
/// does not interpret them), and as the highlighter dressed it otherwise:
/// either way its printable text is the prompt's. The line drawn is the
/// editor's buffer as the highlighter coloured it: stripped of escapes, a
/// buffer holding none is drawn as it is.
pub open spec fn redraws(r: RendererView, e: EditorView, prompt: Seq<char>, plain: bool, suffix: Seq<char>, r1: RendererView, out: Seq<char>) -> bool {
    exists|shown: Seq<char>, line: Seq<char>| {
        &&& plain ==> shown == strip_spec(prompt)
        &&& strip_spec(shown) == strip_spec(prompt)
        &&& escape_free(e.buffer) ==> strip_spec(line) == e.buffer
        &&& #[trigger] drawn(r, e, shown, line, suffix) == (r1, out)
    }
}

/// A renderer set to `cols` columns (at least one).
pub open spec fn with_cols(r: RendererView, cols: u16) -> RendererView {
    RendererView { cols: if cols >= 1 { cols as nat } else { 1 }, ..r }
}

/// `n` spaces.
pub open spec fn spaces(n: nat) -> Seq<char> {
    Seq::new(n, |i: int| ' ')
}

/// The widest of the first `n` of `items`.
pub open spec fn widest(items: Seq<Seq<char>>, n: nat) -> nat
    decreases n,
{
    if n == 0 {
        0
    } else {
        let rest = widest(items, (n - 1) as nat);
        let here = width_spec(items[n - 1]);
        if here > rest { here } else { rest }
    }
}

/// What follows item `i` of a listing: a line break at the end of a row or
/// of the list, otherwise padding out to the column.
pub open spec fn after_item(item: Seq<char>, i: nat, shown: nat, column: nat, per_row: nat) -> Seq<char> {
    if (i + 1) % per_row == 0 || i + 1 == shown {
        "\r\n"@
    } else if width_spec(item) < column {
        spaces((column - width_spec(item)) as nat)
    } else {
        Seq::empty()
    }
}

/// The first `n` items laid out in rows.
pub open spec fn laid_out(items: Seq<Seq<char>>, n: nat, shown: nat, column: nat, per_row: nat) -> Seq<char>
    decreases n,
{
    if n == 0 {
        Seq::empty()
    } else {
        laid_out(items, (n - 1) as nat, shown, column, per_row) + items[n - 1] + after_item(items[n - 1], (n - 1) as nat, shown, column, per_row)
    }
}

/// How many items a listing shows: all of them, up to `limit` (and at
/// least one).
pub open spec fn shown_count(len: nat, limit: nat) -> nat {
    let cap = if limit >= 1 { limit } else { 1 };
    if len < cap { len } else { cap }
}

/// The width of a listing's column: the widest item and two spaces.
pub open spec fn column_width(items: Seq<Seq<char>>, shown: nat) -> nat {
    sat(widest(items, shown) + 2)
}

/// How many columns fit in `cols` cells (at least one).
pub open spec fn per_row_count(cols: nat, column: nat) -> nat {
    let c = if column >= 1 { column } else { 1 };
    if cols / c >= 1 { cols / c } else { 1 }
}

/// `items` laid out in row-major columns that fit `cols`, each row ending
/// `\r\n`, and anything past `limit` summarised on a line of its own.
pub open spec fn columnize_spec(items: Seq<Seq<char>>, cols: nat, limit: nat) -> Seq<char> {
    let shown = shown_count(items.len(), limit);
    let column = column_width(items, shown);
    let per_row = per_row_count(cols, column);
    laid_out(items, shown, shown, column, per_row) + (if items.len() > shown {
        "... and "@ + decimal((items.len() - shown) as nat) + " more\r\n"@
    } else {
        Seq::empty()
    })
}

/// `text` with every line break said as `\r\n`: a lone `\n` gains a
/// carriage return, and one that already has it is left alone.
pub open spec fn crlf(text: Seq<char>) -> Seq<char>
    decreases text.len(),
{
    if text.len() == 0 {
        Seq::empty()
    } else if text.len() >= 2 && text[0] == '\r' && text[1] == '\n' {
        "\r\n"@ + crlf(text.skip(2))
    } else if text[0] == '\n' {
        "\r\n"@ + crlf(text.drop_first())
    } else {
        seq![text[0]] + crlf(text.drop_first())
    }
}

/// The text `print` writes on a terminal with or without a line
/// discipline of its own.
pub open spec fn printed(text: Seq<char>, line_discipline: bool) -> Seq<char> {
    if line_discipline { text } else { crlf(text) }
}

/// What accepting a completion does to editor `e`: one candidate replaces
/// the range, several replace it with what they agree on when that adds
/// something, and otherwise nothing changes.
pub open spec fn completed(e: EditorView, start: usize, end: usize, cands: Seq<Seq<char>>) -> Option<EditorView> {
    if cands.len() == 0 {
        None
    } else if cands.len() == 1 {
        Some(replace_spec(e, start as int, end as int, cands[0]))
    } else {
        let prefix = common_prefix_spec(cands);
        let span: nat = if end >= start { (end - start) as nat } else { 0 };
        if sat(utf8_len(prefix)) > span {
            Some(replace_spec(e, start as int, end as int, prefix))
        } else {
            None
        }
    }
}

/// An optional outcome as a value.
pub open spec fn outcome_view(o: Option<ReadOutcome>) -> Option<ReadView> {
    match o {
        Some(x) => Some(x@),
        None => None,
    }
}

/// The editor after Ctrl+C: the line dropped with its undo history, and
/// any walk through history ended.
pub open spec fn interrupted(e: EditorView) -> EditorView {
    EditorView {
        buffer: Seq::empty(),
        cursor: 0,
        undo: Seq::empty(),
        redo: Seq::empty(),
        run: None,
        history: idle(e.history),
        ..e
    }
}

/// Offering the candidates `cands` for bytes `start..end` took session `v`
/// to `v1` and wrote `out`: see [`Session::apply_completion`].
pub open spec fn completion_applied(v: SessionView, plain: bool, start: usize, end: usize, cands: Seq<Seq<char>>, v1: SessionView, out: Seq<char>) -> bool {
    &&& v1.keymap == v.keymap
    &&& v1.prompt == v.prompt
    &&& v1.completion_list_limit == v.completion_list_limit
    &&& match completed(v.editor, start, end, cands) {
        Some(e1) => v1.editor == e1 && redraws(v.renderer, e1, v.prompt, plain, Seq::empty(), v1.renderer, out),
        None => v1.editor == v.editor && if cands.len() == 0 {
            out.len() == 0 && v1.renderer == v.renderer
        } else {
            exists|rest: Seq<char>| out == rewind_spec(v.renderer) + columnize_spec(cands, v.renderer.cols, v.completion_list_limit) + rest
                && redraws(forgotten(v.renderer), v.editor, v.prompt, plain, Seq::empty(), v1.renderer, rest)
        },
    }
}

/// What one event does while editing, for whatever prompt text,
/// highlighting and completions are in effect: `v1` is the session after,
/// `out` what is written, `outcome` whether the read is over.
pub open spec fn edit_step(v: SessionView, plain: bool, event: EventView, v1: SessionView, out: Seq<char>, outcome: Option<ReadView>, best_effort: bool) -> bool {
    &&& v1.keymap == v.keymap
    &&& v1.prompt == v.prompt
    &&& v1.completion_list_limit == v.completion_list_limit
    &&& best_effort == (event == EventView::Eof)
    &&& match event {
        EventView::Resize(size) => v1.editor == v.editor && outcome is None
            && redraws(with_cols(v.renderer, size.cols), v.editor, v.prompt, plain, Seq::empty(), v1.renderer, out),
        EventView::Eof => v1.editor == v.editor && outcome == Some(ReadView::Eof)
            && out == finish_spec(v.renderer) && v1.renderer == forgotten(v.renderer),
        EventView::Line(line) => v1.editor == (EditorView { history: push_spec(v.editor.history, line), ..v.editor })
            && outcome == Some(ReadView::Line(line)) && out.len() == 0 && v1.renderer == v.renderer,
        EventView::Key(key) => {
            let (e1, o) = apply_spec(v.editor, lookup_spec(v.keymap, key));
            match o {
                Outcome::Continue => v1.editor == e1 && outcome is None
                    && redraws(v.renderer, e1, v.prompt, plain, Seq::empty(), v1.renderer, out),
                Outcome::Ignored => v1.editor == e1 && outcome is None && out.len() == 0 && v1.renderer == v.renderer,
                Outcome::Accept(line) => v1.editor == e1 && outcome == Some(ReadView::Line(line))
                    && out == finish_spec(v.renderer) && v1.renderer == forgotten(v.renderer),
                Outcome::Complete => outcome is None && exists|start: usize, end: usize, cands: Seq<Seq<char>>|
                    completion_applied(SessionView { editor: e1, ..v }, plain, start, end, cands, v1, out),
                Outcome::ClearScreen => v1.editor == e1 && outcome is None
                    && exists|rest: Seq<char>| out == CLEAR_SCREEN@ + rest
                        && redraws(forgotten(v.renderer), e1, v.prompt, plain, Seq::empty(), v1.renderer, rest),
                Outcome::Interrupt => v1.editor == interrupted(e1) && outcome == Some(ReadView::Interrupted)
                    && exists|r1: RendererView, marked: Seq<char>| redraws(v.renderer, e1, v.prompt, plain, "^C"@, r1, marked)
                        && out == marked + finish_spec(r1) && v1.renderer == forgotten(r1),
                Outcome::Eof => v1.editor == e1 && outcome == Some(ReadView::Eof)
                    && out == finish_spec(v.renderer) && v1.renderer == forgotten(v.renderer),
            }
        },
    }
}

/// What one event does while waiting for a finished line.
pub open spec fn line_step(v: SessionView, event: EventView, v1: SessionView, outcome: Option<ReadView>) -> bool {
    match event {
        EventView::Line(line) => v1 == (SessionView { editor: EditorView { history: push_spec(v.editor.history, line), ..v.editor }, ..v })
            && outcome == Some(ReadView::Line(line)),
        EventView::Eof => v1 == v && outcome == Some(ReadView::Eof),
        EventView::Resize(size) => v1 == (SessionView { renderer: with_cols(v.renderer, size.cols), ..v }) && outcome is None,
        EventView::Key(_) => v1 == v && outcome is None,
    }
}

/// The event a read gets as its `i`-th: the scripted one, or end of input
/// once the script has run out.
pub open spec fn event_at(events: Seq<EventView>, i: int) -> EventView {
    if 0 <= i < events.len() {
        events[i]
    } else {
        EventView::Eof
    }
}

/// The texts of `outs`, one after another.
pub open spec fn joined(outs: Seq<Seq<char>>) -> Seq<char>
    decreases outs.len(),
{
    if outs.len() == 0 {
        Seq::empty()
    } else {
        joined(outs.drop_last()) + outs.last()
    }
}

/// What is left of `events` once the first `used` have been read (reading
/// past the end reads end of input and leaves nothing).
pub open spec fn unread(events: Seq<EventView>, used: nat) -> Seq<EventView> {
    if used < events.len() {
        events.skip(used as int)
    } else {
        Seq::empty()
    }
}

/// `views` runs from one session state to the next through the first
/// `outs.len()` of `events`, each an edit step that ended nothing and wrote
/// the matching entry of `outs`.
pub open spec fn edit_trace(plain: bool, events: Seq<EventView>, views: Seq<SessionView>, outs: Seq<Seq<char>>) -> bool {
    &&& views.len() == outs.len() + 1
    &&& outs.len() <= events.len()
    &&& forall|i: int| #![trigger outs[i]] 0 <= i < outs.len()
        ==> edit_step(views[i], plain, events[i], views[i + 1], outs[i], None, events[i] == EventView::Eof)
}

/// A read by keys from `v` over `events`: edit steps, one per event, until
/// the first that ends the read with `outcome`. It leaves `v1`, has written
/// `written`, and has not read `rest`.
pub open spec fn keys_read(v: SessionView, plain: bool, events: Seq<EventView>, v1: SessionView, written: Seq<char>, outcome: ReadView, rest: Seq<EventView>) -> bool {
    exists|views: Seq<SessionView>, outs: Seq<Seq<char>>| {
        &&& #[trigger] edit_trace(plain, events, views, outs.drop_last())
        &&& outs.len() >= 1
        &&& views[0] == v
        &&& edit_step(views.last(), plain, event_at(events, outs.len() - 1), v1, outs.last(), Some(outcome),
                event_at(events, outs.len() - 1) == EventView::Eof)
        &&& written == joined(outs)
        &&& rest == unread(events, outs.len())
    }
}

/// `views` runs through the first `views.len() - 1` of `events`, each a
/// line step that ended nothing.
pub open spec fn line_trace(events: Seq<EventView>, views: Seq<SessionView>) -> bool {
    &&& 1 <= views.len() <= events.len() + 1
    &&& forall|i: int| #![trigger views[i + 1]] 0 <= i < views.len() - 1 ==> line_step(views[i], events[i], views[i + 1], None)
}

/// A read by lines from `v` over `events`: line steps, one per event, until
/// the first that ends the read with `outcome`. It leaves `v1` and has not
/// read `rest`.
pub open spec fn lines_read(v: SessionView, events: Seq<EventView>, v1: SessionView, outcome: ReadView, rest: Seq<EventView>) -> bool {
    exists|views: Seq<SessionView>| {
        &&& #[trigger] line_trace(events, views)
        &&& views[0] == v
        &&& line_step(views.last(), event_at(events, views.len() - 1), v1, Some(outcome))
        &&& rest == unread(events, views.len() as nat)
    }
}

/// How a read by keys starts: the renderer sized to the terminal and
/// emptied, and the prompt drawn.
pub open spec fn begun(v: SessionView, plain: bool, v1: SessionView, out: Seq<char>) -> bool {
    &&& v1 == (SessionView { renderer: v1.renderer, ..v })
    &&& exists|cols: u16| redraws(forgotten(with_cols(v.renderer, cols)), v.editor, v.prompt, plain, Seq::empty(), v1.renderer, out)
}

/// The editor's cursor in bytes, as `LineEditor::cursor` gives it.
pub open spec fn cursor_bytes(e: EditorView) -> usize {
    if utf8_len(e.buffer.take(e.cursor as int)) <= usize::MAX {
        utf8_len(e.buffer.take(e.cursor as int)) as usize
    } else {
        usize::MAX
    }
}

/// Whether `event` is a key that `keymap` binds to completion.
pub open spec fn completes(keymap: Map<KeyPress, Action>, event: EventView) -> bool {
    event matches EventView::Key(k) && lookup_spec(keymap, k) == Action::Complete
}

/// One edit step's outcome and editor are decided by the editor, the
/// keymap and the event alone, whatever was drawn: two sessions that agree
/// on those two agree after the step, unless the event asks for completion
/// (which rests on the completer).
pub proof fn lemma_step_decided(
    a: SessionView, p: bool, b: SessionView, q: bool, event: EventView,
    a1: SessionView, out_a: Seq<char>, oa: Option<ReadView>, ba: bool,
    b1: SessionView, out_b: Seq<char>, ob: Option<ReadView>, bb: bool,
)
    requires
        edit_step(a, p, event, a1, out_a, oa, ba),
        edit_step(b, q, event, b1, out_b, ob, bb),
        a.editor == b.editor,
        a.keymap == b.keymap,
        !completes(a.keymap, event),
    ensures
        oa == ob,
        a1.editor == b1.editor,
        a1.keymap == b1.keymap,
{
}

/// Two traces that start from the same editor and keymap agree on both,
/// step by step, over the events they have both read.
proof fn lemma_traces_agree(
    p: bool, q: bool, events: Seq<EventView>,
    views1: Seq<SessionView>, outs1: Seq<Seq<char>>,
    views2: Seq<SessionView>, outs2: Seq<Seq<char>>, i: int,
)
    requires
        edit_trace(p, events, views1, outs1),
        edit_trace(q, events, views2, outs2),
        views1[0].editor == views2[0].editor,
        views1[0].keymap == views2[0].keymap,
        forall|j: int| 0 <= j < events.len() ==> !completes(views1[0].keymap, #[trigger] events[j]),
        0 <= i <= outs1.len(),
        i <= outs2.len(),
    ensures
        views1[i].editor == views2[i].editor,
        views1[i].keymap == views2[i].keymap,
        views1[i].keymap == views1[0].keymap,
    decreases i,
{
    if i > 0 {
        lemma_traces_agree(p, q, events, views1, outs1, views2, outs2, i - 1);
        let k = i - 1;
        assert(edit_step(views1[k], p, events[k], views1[k + 1], outs1[k], None, events[k] == EventView::Eof));
        assert(edit_step(views2[k], q, events[k], views2[k + 1], outs2[k], None, events[k] == EventView::Eof));
        assert(!completes(views1[0].keymap, events[k]));
        lemma_step_decided(views1[k], p, views2[k], q, events[k],
            views1[k + 1], outs1[k], None, events[k] == EventView::Eof,
            views2[k + 1], outs2[k], None, events[k] == EventView::Eof);
    }
}

/// What is drawn never decides a read: two reads over the same events, from
/// sessions that agree on the editor (history included) and the keymap,
/// end with the same outcome, leave the same editor and read the same
/// events, whatever prompts, highlighters, renderers or terminals drew
/// them, as long as no event asks for completion.
#[verifier::rlimit(40)]
#[verifier::spinoff_prover]
pub proof fn law_drawing_never_decides_a_read(
    v: SessionView, p: bool, w: SessionView, q: bool, events: Seq<EventView>,
    v1: SessionView, written1: Seq<char>, o1: ReadView, rest1: Seq<EventView>,
    w1: SessionView, written2: Seq<char>, o2: ReadView, rest2: Seq<EventView>,
)
    requires
        keys_read(v, p, events, v1, written1, o1, rest1),
        keys_read(w, q, events, w1, written2, o2, rest2),
        v.editor == w.editor,
        v.keymap == w.keymap,
        forall|j: int| 0 <= j < events.len() ==> !completes(v.keymap, #[trigger] events[j]),
    ensures
        o1 == o2,
        v1.editor == w1.editor,
        rest1 == rest2,
{
    let (views1, outs1) = choose|views1: Seq<SessionView>, outs1: Seq<Seq<char>>| {
        &&& #[trigger] edit_trace(p, events, views1, outs1.drop_last())
        &&& outs1.len() >= 1
        &&& views1[0] == v
        &&& edit_step(views1.last(), p, event_at(events, outs1.len() - 1), v1, outs1.last(), Some(o1),
                event_at(events, outs1.len() - 1) == EventView::Eof)
        &&& written1 == joined(outs1)
        &&& rest1 == unread(events, outs1.len())
    };
    let (views2, outs2) = choose|views2: Seq<SessionView>, outs2: Seq<Seq<char>>| {
        &&& #[trigger] edit_trace(q, events, views2, outs2.drop_last())
        &&& outs2.len() >= 1
        &&& views2[0] == w
        &&& edit_step(views2.last(), q, event_at(events, outs2.len() - 1), w1, outs2.last(), Some(o2),
                event_at(events, outs2.len() - 1) == EventView::Eof)
        &&& written2 == joined(outs2)
        &&& rest2 == unread(events, outs2.len())
    };
    let n1 = outs1.len() - 1;
    let n2 = outs2.len() - 1;
    let t1 = outs1.drop_last();
    let t2 = outs2.drop_last();
    let n = if n1 < n2 { n1 } else { n2 };
    lemma_traces_agree(p, q, events, views1, t1, views2, t2, n);
    let ev = event_at(events, n);
    assert(!completes(v.keymap, ev)) by {
        if 0 <= n < events.len() {
            assert(!completes(v.keymap, events[n]));
        }
    }
    if n1 < n2 {
        assert(ev == events[n]);
        assert(edit_step(views2[n], q, events[n], views2[n + 1], t2[n], None, events[n] == EventView::Eof));
        lemma_step_decided(views1[n], p, views2[n], q, ev,
            v1, outs1.last(), Some(o1), ev == EventView::Eof,
            views2[n + 1], t2[n], None, events[n] == EventView::Eof);
    } else if n2 < n1 {
        assert(ev == events[n]);
        assert(edit_step(views1[n], p, events[n], views1[n + 1], t1[n], None, events[n] == EventView::Eof));
        lemma_step_decided(views1[n], p, views2[n], q, ev,
            views1[n + 1], t1[n], None, events[n] == EventView::Eof,
            w1, outs2.last(), Some(o2), ev == EventView::Eof);
    } else {
        lemma_step_decided(views1[n], p, views2[n], q, ev,
            v1, outs1.last(), Some(o1), ev == EventView::Eof,
            w1, outs2.last(), Some(o2), ev == EventView::Eof);
    }
}

/// Every `\n` of `s` comes right after a `\r`.
pub open spec fn breaks_are_crlf(s: Seq<char>) -> bool {
    forall|i: int| 0 <= i < s.len() && #[trigger] s[i] == '\n' ==> i > 0 && s[i - 1] == '\r'
}

proof fn lemma_crlf_shape(t: Seq<char>)
    ensures
        breaks_are_crlf(crlf(t)),
        crlf(t).len() > 0 ==> crlf(t)[0] != '\n',
    decreases t.len(),
{
    if t.len() == 0 {
        return;
    }
    let head: Seq<char> = if t.len() >= 2 && t[0] == '\r' && t[1] == '\n' { "\r\n"@ } else if t[0] == '\n' { "\r\n"@ } else { seq![t[0]] };
    let rest = if t.len() >= 2 && t[0] == '\r' && t[1] == '\n' { t.skip(2) } else { t.drop_first() };
    lemma_crlf_shape(rest);
    reveal_strlit("\r\n");
    assert(crlf(t) == head + crlf(rest));
    let x = crlf(rest);
    let out = head + x;
    assert forall|i: int| 0 <= i < out.len() && #[trigger] out[i] == '\n' implies i > 0 && out[i - 1] == '\r' by {
        if i >= head.len() {
            let k = i - head.len();
            assert(out[i] == x[k]);
            if k > 0 {
                assert(out[i - 1] == x[k - 1]);
            }
        }
    }
}

proof fn lemma_crlf_keeps(s: Seq<char>)
    requires
        breaks_are_crlf(s),
    ensures
        crlf(s) == s,
    decreases s.len(),
{
    if s.len() == 0 {
        return;
    }
    reveal_strlit("\r\n");
    if s.len() >= 2 && s[0] == '\r' && s[1] == '\n' {
        let rest = s.skip(2);
        assert forall|i: int| 0 <= i < rest.len() && #[trigger] rest[i] == '\n' implies i > 0 && rest[i - 1] == '\r' by {
            assert(s[i + 2] == rest[i]);
            assert(s[i + 1] == '\r');
            if i == 0 {
                assert(s[1] == '\n');
            } else {
                assert(rest[i - 1] == s[i + 1]);
            }
        }
        lemma_crlf_keeps(rest);
        assert(s =~= "\r\n"@ + rest);
    } else {
        assert(s[0] != '\n');
        let rest = s.drop_first();
        assert forall|i: int| 0 <= i < rest.len() && #[trigger] rest[i] == '\n' implies i > 0 && rest[i - 1] == '\r' by {
            assert(s[i + 1] == rest[i]);
            assert(s[i] == '\r');
            if i == 0 {
                assert(s.len() >= 2 && s[0] == '\r' && s[1] == '\n');
            } else {
                assert(rest[i - 1] == s[i]);
            }
        }
        lemma_crlf_keeps(rest);
        assert(s =~= seq![s[0]] + rest);
    }
}

/// Printing is stable: text already converted for a terminal without a
/// line discipline is written unchanged the second time.
pub proof fn law_print_is_idempotent(text: Seq<char>, line_discipline: bool)
    ensures
        printed(printed(text, line_discipline), line_discipline) == printed(text, line_discipline),
{
    if !line_discipline {
        lemma_crlf_shape(text);
        lemma_crlf_keeps(crlf(text));
    }
}

/// Ctrl+C abandons the line and forgets it: the read ends interrupted, the
/// line is gone, and nothing is added to the history.
pub proof fn law_interrupt_forgets_the_line(v: SessionView, plain: bool, key: KeyPress, v1: SessionView, out: Seq<char>, outcome: Option<ReadView>, best_effort: bool)
    requires
        edit_step(v, plain, EventView::Key(key), v1, out, outcome, best_effort),
        apply_spec(v.editor, lookup_spec(v.keymap, key)).1 == Outcome::Interrupt,
    ensures
        outcome == Some(ReadView::Interrupted),
        v1.editor.buffer.len() == 0,
        v1.editor.history.entries == v.editor.history.entries,
{
}

/// Enter hands over the line as it was and records it in the history the
/// way a push records it, leaving an empty line.
pub proof fn law_accepted_line_is_recorded(v: SessionView, plain: bool, key: KeyPress, v1: SessionView, out: Seq<char>, outcome: Option<ReadView>, best_effort: bool)
    requires
        edit_step(v, plain, EventView::Key(key), v1, out, outcome, best_effort),
        apply_spec(v.editor, lookup_spec(v.keymap, key)).1 is Accept,
    ensures
        outcome == Some(ReadView::Line(v.editor.buffer)),
        v1.editor.history == push_spec(v.editor.history, v.editor.buffer),
        v1.editor.buffer.len() == 0,
{
}

/// The string a `Cow` holds.
fn owned(text: Cow<str>) -> (r: String)
    ensures
        r@ == text@,
{
    match text {
        Cow::Borrowed(s) => String::from_str(s),
        Cow::Owned(s) => s,
    }
}

/// The widest of the first `n` items.
fn widest_of(items: &[String], n: usize) -> (r: usize)
    requires
        n <= items@.len(),
    ensures
        r == widest(views(items@), n as nat),
{
    let mut best: usize = 0;
    let mut i: usize = 0;
    while i < n
        invariant
            i <= n <= items@.len(),
            best == widest(views(items@), i as nat),
        decreases n - i,
    {
        let w = display_width(items[i].as_str());
        assert(views(items@)[i as int] == items@[i as int]@);
        if w > best {
            best = w;
        }
        i = i + 1;
    }
    best
}

/// Lay `items` out in columns that fit `cols`, ending with a newline.
///
/// Row-major, like a shell's completion list. Anything past `limit` is
/// summarised rather than printed, so a completer that offers everything on
/// the filesystem cannot scroll the session away.
pub fn columnize(items: &[String], cols: u16, limit: usize) -> (r: String)
    ensures
        r@ == columnize_spec(views(items@), cols as nat, limit as nat),
{
    let cap = if limit >= 1 { limit } else { 1 };
    let shown = if items.len() < cap { items.len() } else { cap };
    let widest = widest_of(items, shown);
    let column = widest.saturating_add(2);
    let c = cols as usize;
    let per_row = if c / column >= 1 { c / column } else { 1 };
    let ghost cands = views(items@);
    let mut out = String::new();
    let mut i: usize = 0;
    while i < shown
        invariant
            i <= shown <= items@.len(),
            shown == shown_count(items@.len(), limit as nat),
            column == column_width(cands, shown as nat),
            column >= 2,
            per_row == per_row_count(cols as nat, column as nat),
            per_row >= 1,
            cands == views(items@),
            out@ == laid_out(cands, i as nat, shown as nat, column as nat, per_row as nat),
        decreases shown - i,
    {
        let ghost before = out@;
        out.append(items[i].as_str());
        assert(cands[i as int] == items@[i as int]@);
        if (i + 1) % per_row == 0 || i + 1 == shown {
            out.append("\r\n");
        } else {
            let w = display_width(items[i].as_str());
            let mut k = w;
            while k < column
                invariant
                    w <= column ==> w <= k <= column,
                    w > column ==> k == w,
                    w == width_spec(cands[i as int]),
                    out@ == before + cands[i as int] + spaces(if k >= w { (k - w) as nat } else { 0 }),
                decreases column - k,
            {
                out.push(' ');
                proof {
                    assert(spaces((k + 1 - w) as nat) =~= spaces((k - w) as nat).push(' '));
                }
                k = k + 1;
            }
            proof {
                if w >= column {
                    assert(spaces(0) =~= Seq::<char>::empty());
                }
            }
        }
        proof {
            assert(out@ =~= laid_out(cands, (i + 1) as nat, shown as nat, column as nat, per_row as nat));
        }
        i = i + 1;
    }
    if items.len() > shown {
        out.append("... and ");
        push_decimal(&mut out, items.len() - shown);
        out.append(" more\r\n");
    }
    proof {
        assert(out@ =~= columnize_spec(cands, cols as nat, limit as nat));
    }
    out
}

/// Say every line break in `text` as `\r\n`.
pub fn to_crlf(text: &str) -> (r: String)
    ensures
        r@ == crlf(text@),
{
    let chars = chars_of(text);
    let n = chars.len();
    let mut out = String::new();
    let mut i: usize = 0;
    assert(chars@.skip(0) =~= chars@);
    while i < n
        invariant
            i <= n == chars@.len(),
            chars@ == text@,
            out@ + crlf(chars@.skip(i as int)) == crlf(text@),
        decreases n - i,
    {
        let ghost rest = chars@.skip(i as int);
        if i + 1 < n && chars[i] == '\r' && chars[i + 1] == '\n' {
            out.append("\r\n");
            proof {
                assert(rest.skip(2) =~= chars@.skip(i + 2));
                assert(out@ + crlf(chars@.skip(i + 2)) =~= crlf(text@));
            }
            i = i + 2;
        } else {
            if chars[i] == '\n' {
                out.append("\r\n");
            } else {
                out.push(chars[i]);
            }
            proof {
                assert(rest.drop_first() =~= chars@.skip(i + 1));
                assert(out@ + crlf(chars@.skip(i + 1)) =~= crlf(text@));
            }
            i = i + 1;
        }
    }
    assert(chars@.skip(i as int) =~= Seq::<char>::empty());
    assert(out@ + Seq::<char>::empty() =~= out@);
    out
}

/// `text` as it is to be written between prompts: a lone `\n` is said
/// `\r\n` on a terminal without a line discipline of its own, which would
/// otherwise start the next line halfway across the screen. Text that
/// already says `\r\n` is left as it is.
pub fn printed_text(text: &str, line_discipline: bool) -> (r: String)
    ensures
        r@ == printed(text@, line_discipline),
{
    if !line_discipline {
        to_crlf(text)
    } else {
        String::from_str(text)
    }
}

impl<T> Session<T> {
    pub closed spec fn wf(&self) -> bool {
        self.editor.wf() && self.renderer.wf() && self.keymap.wf()
    }

    /// The terminal this session holds.
    pub closed spec fn term_spec(&self) -> T {
        self.term
    }

    /// Whether the session's completer may answer `c` when asked about the
    /// editor's line with the cursor where the editor has it, in bytes.
    pub closed spec fn completion_offered(&self, c: Completion) -> bool {
        self.completer.offers(self.editor@.buffer, cursor_bytes(self.editor@), c)
    }

    pub fn prompt(&self) -> (r: &str)
        ensures
            r@ == self@.prompt,
    {
        self.prompt.as_str()
    }

    /// Set the prompt. It may carry SGR escapes and must be a single line.
    pub fn set_prompt(&mut self, prompt: &str)
        ensures
            final(self)@ == (SessionView { prompt: prompt@, ..old(self)@ }),
            final(self).term_spec() == old(self).term_spec(),
            old(self).wf() ==> final(self).wf(),
    {
        self.prompt = String::from_str(prompt);
    }

    pub fn set_completer<C: Completer + 'static>(&mut self, completer: C)
        ensures
            final(self)@ == old(self)@,
            final(self).term_spec() == old(self).term_spec(),
            old(self).wf() ==> final(self).wf(),
    {
        self.completer = Box::new(completer);
    }

    pub fn set_highlighter<H: Highlighter + 'static>(&mut self, highlighter: H)
        ensures
            final(self)@ == old(self)@,
            final(self).term_spec() == old(self).term_spec(),
            old(self).wf() ==> final(self).wf(),
    {
        self.highlighter = Box::new(highlighter);
    }

    pub fn set_completion_list_limit(&mut self, limit: usize)
        ensures
            final(self)@ == (SessionView { completion_list_limit: limit as nat, ..old(self)@ }),
            final(self).term_spec() == old(self).term_spec(),
            old(self).wf() ==> final(self).wf(),
    {
        self.completion_list_limit = limit;
    }

    pub fn editor(&self) -> (r: &LineEditor)
        ensures
            r@ == self@.editor,
            self.wf() ==> r.wf(),
    {
        &self.editor
    }

    pub fn editor_mut(&mut self) -> (r: &mut LineEditor)
        ensures
            r@ == old(self)@.editor,
            old(self).wf() ==> r.wf(),
            final(self)@ == (SessionView { editor: final(r)@, ..old(self)@ }),
            final(self).term_spec() == old(self).term_spec(),
            old(self).wf() && final(r).wf() ==> final(self).wf(),
    {
        &mut self.editor
    }

    pub fn history(&self) -> (r: &History)
        ensures
            r@ == self@.editor.history,
            self.wf() ==> r.wf(),
    {
        self.editor.history()
    }

    pub fn history_mut(&mut self) -> (r: &mut History)
        ensures
            r@ == old(self)@.editor.history,
            old(self).wf() ==> r.wf(),
            final(self)@ == (SessionView { editor: EditorView { history: final(r)@, ..old(self)@.editor }, ..old(self)@ }),
            final(self).term_spec() == old(self).term_spec(),
            old(self).wf() && final(r).wf() ==> final(self).wf(),
    {
        self.editor.history_mut()
    }

    pub fn keymap(&self) -> (r: &Keymap)
        ensures
            r@ == self@.keymap,
            self.wf() ==> r.wf(),
    {
        &self.keymap
    }

    pub fn keymap_mut(&mut self) -> (r: &mut Keymap)
        ensures
            r@ == old(self)@.keymap,
            old(self).wf() ==> r.wf(),
            final(self)@ == (SessionView { keymap: final(r)@, ..old(self)@ }),
            final(self).term_spec() == old(self).term_spec(),
            old(self).wf() && final(r).wf() ==> final(self).wf(),
    {
        &mut self.keymap
    }

    pub fn terminal(&self) -> (r: &T)
        ensures
            *r == self.term_spec(),
    {
        &self.term
    }

    pub fn terminal_mut(&mut self) -> (r: &mut T)
        ensures
            *r == old(self).term_spec(),
            final(self)@ == old(self)@,
            final(self).term_spec() == *final(r),
            old(self).wf() ==> final(self).wf(),
    {
        &mut self.term
    }

    /// The prompt as shown: as the highlighter dresses it where escapes are
    /// interpreted, and stripped of them where they are not.
    pub fn prompt_shown(&self, ansi: bool) -> (r: String)
        ensures
            !ansi ==> r@ == strip_spec(self@.prompt),
            strip_spec(r@) == strip_spec(self@.prompt),
    {
        if ansi {
            owned(self.highlighter.highlight_prompt(self.prompt.as_str()))
        } else {
            proof {
                law_strip_is_idempotent(self@.prompt);
            }
            strip(self.prompt.as_str())
        }
    }

    /// The escapes that replace the drawn block with `prompt` and `line`
    /// (the buffer as highlighted), `suffix` after it, and the cursor after
    /// the suffix if there is one, else where the editor has it.
    pub fn draw_with(&mut self, prompt: &str, line: &str, suffix: &str) -> (out: String)
        requires
            old(self).wf(),
        ensures
            final(self).wf(),
            final(self).term_spec() == old(self).term_spec(),
            (final(self)@.renderer, out@) == drawn(old(self)@.renderer, old(self)@.editor, prompt@, line@, suffix@),
            final(self)@ == (SessionView { renderer: final(self)@.renderer, ..old(self)@ }),
    {
        let mut shown = String::from_str(line);
        let cursor_cols = if suffix.is_empty() {
            let head = self.editor.before_cursor();
            display_width(head.as_str())
        } else {
            let width = display_width(line).saturating_add(display_width(suffix));
            shown.append(suffix);
            width
        };
        proof {
            if suffix@.len() == 0 {
                assert(shown@ =~= line@ + suffix@);
            }
        }
        self.renderer.frame(prompt, shown.as_str(), cursor_cols)
    }

    /// Leave the drawn line on screen and move below it.
    fn finish(&mut self) -> (out: String)
        requires
            old(self).wf(),
        ensures
            final(self).wf(),
            final(self).term_spec() == old(self).term_spec(),
            out@ == finish_spec(old(self)@.renderer),
            final(self)@ == (SessionView { renderer: forgotten(old(self)@.renderer), ..old(self)@ }),
    {
        self.renderer.finish()
    }
}

impl<T: Terminal> Session<T> {
    pub fn new(term: T) -> (r: Self)
        ensures
            r.wf(),
            r.term_spec() == term,
            r@.editor.buffer.len() == 0,
            r@.editor.cursor == 0,
            r@.editor.history == History::new_spec(),
            r@.renderer == forgotten(r@.renderer),
            r@.keymap == default_table(),
            r@.prompt == DEFAULT_PROMPT@,
            r@.completion_list_limit == DEFAULT_COMPLETION_LIST_LIMIT as nat,
    {
        let cols = term.size().cols;
        Self {
            term,
            editor: LineEditor::new(),
            renderer: Renderer::new(cols),
            keymap: Keymap::new(),
            completer: Box::new(NoCompleter),
            highlighter: Box::new(NoHighlighter),
            prompt: String::from_str(DEFAULT_PROMPT),
            completion_list_limit: DEFAULT_COMPLETION_LIST_LIMIT,
        }
    }

    /// Whether the prompt is drawn stripped of escapes: the terminal does
    /// not interpret them.
    pub open spec fn plain_prompt(&self) -> bool {
        !self.term_spec().reported_capabilities().ansi
    }

    /// What the terminal behind this session can do, as it reports it.
    pub fn capabilities(&self) -> (r: Capabilities)
        ensures
            r == self.term_spec().reported_capabilities(),
    {
        self.term.capabilities()
    }

    /// The prompt as this terminal shows it: stripped of escapes where the
    /// terminal does not interpret them, else as the highlighter dresses it.
    pub fn prompt_text(&self) -> (r: String)
        ensures
            !self.term_spec().reported_capabilities().ansi ==> r@ == strip_spec(self@.prompt),
            strip_spec(r@) == strip_spec(self@.prompt),
    {
        let ansi = self.term.capabilities().ansi;
        self.prompt_shown(ansi)
    }

    /// `text` as it is to be written between prompts on this terminal.
    pub fn print_text(&self, text: &str) -> (r: String)
        ensures
            r@ == printed(text@, self.term_spec().reported_capabilities().line_discipline),
    {
        let line_discipline = self.term.capabilities().line_discipline;
        printed_text(text, line_discipline)
    }

    /// Redraw the prompt and line, with `suffix` appended after the line and
    /// the cursor placed after it when it is non-empty.
    fn draw(&mut self, suffix: &str) -> (out: String)
        requires
            old(self).wf(),
        ensures
            final(self).wf(),
            final(self).term_spec() == old(self).term_spec(),
            redraws(old(self)@.renderer, old(self)@.editor, old(self)@.prompt, old(self).plain_prompt(), suffix@, final(self)@.renderer, out@),
            final(self)@ == (SessionView { renderer: final(self)@.renderer, ..old(self)@ }),
    {
        let prompt = self.prompt_text();
        let buffer = self.editor.buffer();
        let line = owned(self.highlighter.highlight(buffer.as_str()));
        self.draw_with(prompt.as_str(), line.as_str(), suffix)
    }

    /// Start editing: size the renderer to the terminal, forget anything
    /// drawn before, and draw the prompt. The terminal is already raw.
    pub fn begin_edit(&mut self) -> (out: String)
        requires
            old(self).wf(),
        ensures
            final(self).wf(),
            final(self).term_spec() == old(self).term_spec(),
            exists|cols: u16| redraws(forgotten(with_cols(old(self)@.renderer, cols)), old(self)@.editor, old(self)@.prompt, old(self).plain_prompt(), Seq::empty(), final(self)@.renderer, out@),
            final(self)@ == (SessionView { renderer: final(self)@.renderer, ..old(self)@ }),
    {
        let cols = self.term.size().cols;
        self.renderer.set_cols(cols);
        self.renderer.forget();
        proof {
            reveal_strlit("");
            assert(""@ =~= Seq::<char>::empty());
            assert(self@.renderer == forgotten(with_cols(old(self)@.renderer, cols)));
        }
        let out = self.draw("");
        proof {
            assert(redraws(forgotten(with_cols(old(self)@.renderer, cols)), old(self)@.editor, old(self)@.prompt, old(self).plain_prompt(), Seq::empty(), self@.renderer, out@));
        }
        out
    }

    /// Offer `completion`, as the completer returned it for the current
    /// line: one candidate is taken, several are narrowed to what they
    /// agree on, and when that adds nothing they are listed below the line.
    pub fn apply_completion(&mut self, completion: Completion) -> (out: String)
        requires
            old(self).wf(),
        ensures
            final(self).wf(),
            final(self).term_spec() == old(self).term_spec(),
            completion_applied(old(self)@, old(self).plain_prompt(), completion.start, completion.end, views(completion.candidates@), final(self)@, out@),
    {
        proof {
            reveal_strlit("");
            assert(""@ =~= Seq::<char>::empty());
        }
        if completion.candidates.len() == 0 {
            return String::new();
        }
        let ghost cands = views(completion.candidates@);
        if completion.candidates.len() == 1 {
            assert(cands[0] == completion.candidates@[0]@);
            self.editor.replace_range(completion.range(), completion.candidates[0].as_str());
            let out = self.draw("");
            proof {
                let e1 = replace_spec(old(self)@.editor, completion.start as int, completion.end as int, cands[0]);
                assert(completed(old(self)@.editor, completion.start, completion.end, cands) == Some(e1));
            }
            return out;
        }
        let prefix = completion.common_prefix();
        let span = completion.end.saturating_sub(completion.start);
        let prefix_chars = chars_of(prefix.as_str());
        let prefix_bytes = byte_offset(prefix_chars.as_slice(), prefix_chars.len());
        proof {
            assert(prefix_chars@.take(prefix_chars@.len() as int) =~= prefix_chars@);
        }
        if prefix_bytes > span {
            self.editor.replace_range(completion.range(), prefix.as_str());
            let out = self.draw("");
            proof {
                let e1 = replace_spec(old(self)@.editor, completion.start as int, completion.end as int, prefix@);
                assert(completed(old(self)@.editor, completion.start, completion.end, cands) == Some(e1));
            }
            return out;
        }
        let listing = columnize(completion.candidates.as_slice(), self.renderer.cols(), self.completion_list_limit);
        let erase = self.renderer.erase();
        let rest = self.draw("");
        let mut out = erase;
        out.append(listing.as_str());
        out.append(rest.as_str());
        proof {
            assert(completed(old(self)@.editor, completion.start, completion.end, cands) is None);
            assert(out@ == rewind_spec(old(self)@.renderer) + columnize_spec(cands, old(self)@.renderer.cols, old(self)@.completion_list_limit) + rest@);
        }
        out
    }

    /// Handle one event while editing.
    pub fn edit_event(&mut self, event: Event) -> (step: Step)
        requires
            old(self).wf(),
        ensures
            final(self).wf(),
            final(self).term_spec() == old(self).term_spec(),
            edit_step(old(self)@, old(self).plain_prompt(), event@, final(self)@, step.output@, outcome_view(step.outcome), step.best_effort),
            completes(old(self)@.keymap, event@) ==> exists|c: Completion| {
                &&& #[trigger] old(self).completion_offered(c)
                &&& completion_applied(old(self)@, old(self).plain_prompt(), c.start, c.end, views(c.candidates@), final(self)@, step.output@)
            },
    {
        proof {
            reveal_strlit("");
            assert(""@ =~= Seq::<char>::empty());
        }
        match event {
            Event::Resize(size) => {
                self.renderer.set_cols(size.cols);
                let output = self.draw("");
                Step { output, outcome: None, best_effort: false }
            },
            // The terminal went away mid-line: whatever was typed is lost
            // with it, so say end of input rather than pretend.
            Event::Eof => {
                let output = self.finish();
                Step { output, outcome: Some(ReadOutcome::Eof), best_effort: true }
            },
            // Only from a backend that reports raw mode and then sends
            // lines anyway. Take it at face value.
            Event::Line(line) => {
                self.editor.history_mut().push(line.as_str());
                Step { output: String::new(), outcome: Some(ReadOutcome::Line(line)), best_effort: false }
            },
            Event::Key(key) => {
                let action = self.keymap.lookup(key);
                let ghost before = self@;
                let outcome = self.editor.apply(action);
                match outcome {
                    EditOutcome::Continue => {
                        let output = self.draw("");
                        Step { output, outcome: None, best_effort: false }
                    },
                    EditOutcome::Ignored => Step { output: String::new(), outcome: None, best_effort: false },
                    EditOutcome::Accept(line) => {
                        let output = self.finish();
                        Step { output, outcome: Some(ReadOutcome::Line(line)), best_effort: false }
                    },
                    EditOutcome::Complete => {
                        let buffer = self.editor.buffer();
                        let cursor = self.editor.cursor();
                        let completion = self.completer.complete(buffer.as_str(), cursor);
                        let ghost start = completion.start;
                        let ghost end = completion.end;
                        let ghost cands = views(completion.candidates@);
                        let ghost mid = self@;
                        let output = self.apply_completion(completion);
                        proof {
                            assert(mid == SessionView { editor: apply_spec(before.editor, action).0, ..before });
                            assert(completion_applied(mid, old(self).plain_prompt(), start, end, cands, self@, output@));
                            assert(old(self).completion_offered(completion));
                        }
                        Step { output, outcome: None, best_effort: false }
                    },
                    EditOutcome::ClearScreen => {
                        let mut output = String::from_str(CLEAR_SCREEN);
                        self.renderer.forget();
                        let rest = self.draw("");
                        output.append(rest.as_str());
                        proof {
                            assert(output@ == CLEAR_SCREEN@ + rest@);
                        }
                        Step { output, outcome: None, best_effort: false }
                    },
                    // Leave the abandoned line on screen, marked, the way
                    // every shell does.
                    EditOutcome::Interrupt => {
                        proof {
                            reveal_strlit("^C");
                        }
                        let mut output = self.draw("^C");
                        let ghost r1 = self@.renderer;
                        let ghost marked = output@;
                        let tail = self.finish();
                        output.append(tail.as_str());
                        self.editor.take_buffer();
                        self.editor.history_mut().end_navigation();
                        proof {
                            assert(output@ == marked + finish_spec(r1));
                        }
                        Step { output, outcome: Some(ReadOutcome::Interrupted), best_effort: false }
                    },
                    EditOutcome::Eof => {
                        let output = self.finish();
                        Step { output, outcome: Some(ReadOutcome::Eof), best_effort: false }
                    },
                }
            },
        }
    }

    /// Handle one event while waiting for a finished line.
    pub fn line_event(&mut self, event: Event) -> (outcome: Option<ReadOutcome>)
        requires
            old(self).wf(),
        ensures
            final(self).wf(),
            final(self).term_spec() == old(self).term_spec(),
            line_step(old(self)@, event@, final(self)@, outcome_view(outcome)),
    {
        match event {
            Event::Line(line) => {
                self.editor.history_mut().push(line.as_str());
                Some(ReadOutcome::Line(line))
            },
            Event::Eof => Some(ReadOutcome::Eof),
            Event::Resize(size) => {
                self.renderer.set_cols(size.cols);
                None
            },
            // A line-at-a-time terminal has no keys to report, but one that
            // grows them should not be silently misread.
            Event::Key(_) => None,
        }
    }
}

impl Session<MemTerminal> {
    /// Write `text` to the terminal between prompts.
    pub fn print(&mut self, text: &str) -> (r: Result<()>)
        ensures
            r is Ok,
            final(self)@ == old(self)@,
            old(self).wf() ==> final(self).wf(),
            final(self).term_spec()@ == (MemView {
                output: old(self).term_spec()@.output + printed(text@, old(self).term_spec()@.capabilities.line_discipline),
                ..old(self).term_spec()@
            }),
    {
        let line_discipline = self.term.capabilities().line_discipline;
        let shown = printed_text(text, line_discipline);
        self.term.write(shown.as_str());
        self.term.flush();
        Ok(())
    }

    /// Read one line: editing where the terminal delivers keys, waiting for
    /// a finished one where it delivers lines. Either way the accepted line
    /// is recorded in history, and a terminal put in raw mode is put back
    /// before this returns.
    ///
    /// By keys, the read is the prompt drawn and then one edit step per
    /// scripted event until one ends the read; by lines, the prompt written
    /// and then one line step per event. Running out of script reads as end
    /// of input.
    #[verifier::rlimit(60)]
    #[verifier::spinoff_prover]
    pub fn read_line(&mut self) -> (r: Result<ReadOutcome>)
        requires
            old(self).wf(),
        ensures
            final(self).wf(),
            r matches Ok(outcome) && {
                let t0 = old(self).term_spec()@;
                let t1 = final(self).term_spec()@;
                &&& t0.capabilities.raw_mode ==> exists|mid: SessionView, first: Seq<char>, written: Seq<char>| {
                    &&& #[trigger] begun(old(self)@, old(self).plain_prompt(), mid, first)
                    &&& #[trigger] keys_read(mid, old(self).plain_prompt(), t0.events, final(self)@, written, outcome@, t1.events)
                    &&& t1 == (MemView {
                        events: t1.events,
                        output: t0.output + first + written,
                        raw: false,
                        raw_calls: t0.raw_calls.push(true).push(false),
                        ..t0
                    })
                }
                &&& !t0.capabilities.raw_mode ==> exists|shown: Seq<char>| {
                    &&& (!t0.capabilities.ansi ==> shown == strip_spec(old(self)@.prompt))
                    &&& #[trigger] lines_read(old(self)@, t0.events, final(self)@, outcome@, t1.events)
                    &&& t1 == (MemView { events: t1.events, output: t0.output + shown, ..t0 })
                }
            },
    {
        let ghost start = self.term@;
        let ghost v0 = self@;
        assert(start == old(self).term_spec()@);
        if self.term.capabilities().raw_mode {
            let _ = self.term.set_raw(true);
            let first = self.begin_edit();
            let ghost mid = self@;
            self.term.write(first.as_str());
            self.term.flush();
            let ghost mut views: Seq<SessionView> = seq![mid];
            let ghost mut outs: Seq<Seq<char>> = Seq::empty();
            proof {
                assert(begun(v0, old(self).plain_prompt(), mid, first@));
                assert(start.events.skip(0) =~= start.events);
                assert(joined(outs) =~= Seq::<char>::empty());
                assert(start.output + first@ + joined(outs) =~= start.output + first@);
            }
            loop
                invariant
                    self.wf(),
                    start == old(self).term_spec()@,
                    v0 == old(self)@,
                    start.capabilities.raw_mode,
                    begun(v0, !start.capabilities.ansi, mid, first@),
                    edit_trace(!start.capabilities.ansi, start.events, views, outs),
                    views[0] == mid,
                    views.last() == self@,
                    self.term@ == (MemView {
                        events: start.events.skip(outs.len() as int),
                        output: start.output + first@ + joined(outs),
                        raw: true,
                        raw_calls: start.raw_calls.push(true),
                        ..start
                    }),
                decreases start.events.len() - outs.len(),
            {
                let ghost before = self@;
                let ghost k = outs.len();
                let event = self.term.next_event();
                proof {
                    assert(event@ == event_at(start.events, k as int));
                }
                let step = self.edit_event(event);
                self.term.write(step.output.as_str());
                self.term.flush();
                let ghost outs1 = outs.push(step.output@);
                proof {
                    assert(outs1.drop_last() =~= outs);
                    assert(joined(outs1) == joined(outs) + step.output@);
                    assert(start.output + first@ + joined(outs) + step.output@ =~= start.output + first@ + joined(outs1));
                }
                match step.outcome {
                    Some(outcome) => {
                        let _ = self.term.set_raw(false);
                        self.term.flush();
                        proof {
                            assert(views.last() == before);
                            assert(edit_trace(!start.capabilities.ansi, start.events, views, outs1.drop_last()));
                            if k < start.events.len() {
                                assert(unread(start.events, outs1.len()) =~= start.events.skip(k as int).drop_first());
                            } else {
                                assert(unread(start.events, outs1.len()) =~= start.events.skip(k as int));
                            }
                            assert(keys_read(mid, !start.capabilities.ansi, start.events, self@, joined(outs1), outcome@, self.term@.events));
                            assert(old(self).plain_prompt() == !start.capabilities.ansi);
                            assert(begun(old(self)@, old(self).plain_prompt(), mid, first@));
                            assert(keys_read(mid, old(self).plain_prompt(), start.events, self@, joined(outs1), outcome@, self.term@.events));
                        }
                        return Ok(outcome);
                    },
                    None => {
                        proof {
                            assert(k < start.events.len());
                            let views1 = views.push(self@);
                            assert forall|i: int| #![trigger outs1[i]] 0 <= i < outs1.len() implies
                                edit_step(views1[i], !start.capabilities.ansi, start.events[i], views1[i + 1], outs1[i], None, start.events[i] == EventView::Eof) by {
                                if i < k {
                                    assert(outs1[i] == outs[i]);
                                    assert(views1[i] == views[i]);
                                    assert(views1[i + 1] == views[i + 1]);
                                }
                            }
                            assert(start.events.skip(k as int).drop_first() =~= start.events.skip((k + 1) as int));
                            views = views1;
                            outs = outs1;
                        }
                    },
                }
            }
        } else {
            let prompt = self.prompt_text();
            self.term.write(prompt.as_str());
            self.term.flush();
            let ghost mut views: Seq<SessionView> = seq![v0];
            proof {
                assert(start.events.skip(0) =~= start.events);
            }
            loop
                invariant
                    self.wf(),
                    start == old(self).term_spec()@,
                    v0 == old(self)@,
                    !start.capabilities.raw_mode,
                    !start.capabilities.ansi ==> prompt@ == strip_spec(v0.prompt),
                    line_trace(start.events, views),
                    views[0] == v0,
                    views.last() == self@,
                    self.term@ == (MemView {
                        events: start.events.skip(views.len() - 1),
                        output: start.output + prompt@,
                        ..start
                    }),
                decreases start.events.len() + 1 - views.len(),
            {
                let ghost k = views.len() - 1;
                let ghost before = self@;
                let event = self.term.next_event();
                proof {
                    assert(event@ == event_at(start.events, k));
                }
                match self.line_event(event) {
                    Some(outcome) => {
                        proof {
                            if k < start.events.len() {
                                assert(unread(start.events, views.len() as nat) =~= start.events.skip(k).drop_first());
                            } else {
                                assert(unread(start.events, views.len() as nat) =~= start.events.skip(k));
                            }
                            assert(lines_read(v0, start.events, self@, outcome@, self.term@.events));
                        }
                        return Ok(outcome);
                    },
                    None => {
                        proof {
                            assert(k < start.events.len());
                            let views1 = views.push(self@);
                            assert forall|i: int| #![trigger views1[i + 1]] 0 <= i < views1.len() - 1 implies
                                line_step(views1[i], start.events[i], views1[i + 1], None) by {
                                if i < k {
                                    assert(views1[i] == views[i]);
                                    assert(views1[i + 1] == views[i + 1]);
                                }
                            }
                            assert(start.events.skip(k).drop_first() =~= start.events.skip((k + 1) as int));
                            views = views1;
                        }
                    },
                }
            }
        }
    }
}

} // verus!
