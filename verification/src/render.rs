//! Drawing the prompt and the line, and putting the cursor back.
//!
//! The renderer emits ANSI, which every target agrees on. When the drawn
//! text ends exactly on the margin, `frame` writes one space and a carriage
//! return: on a terminal that defers the wrap the space resolves it, on one
//! that wraps eagerly it lands harmlessly at the start of the row already
//! entered, and both end at column zero of the same row. `finish` erases
//! that space before moving on.

use vstd::prelude::*;
use crate::style::{Color, escape_free, fg_spec, law_paint_is_invisible, sat, width_spec, display_width};
use crate::text::{decimal, digit_char, push_decimal};
use crate::shell::command::digits_value;

verus! {

/// Tracks where it last drew, so the next frame can return to the top of
/// the block and redraw it.
#[derive(Clone, Debug)]
pub struct Renderer {
    cols: u16,
    /// Rows below the block's first row where the cursor was left.
    cursor_row: u16,
    /// Rows below the block's first row where the drawn text ended.
    end_row: u16,
    /// The last frame ended on the margin and wrote a padding space.
    padded: bool,
    drawn: bool,
}

/// A renderer as a value.
pub struct RendererView {
    pub cols: nat,
    pub cursor_row: nat,
    pub end_row: nat,
    pub padded: bool,
    pub drawn: bool,
}

impl View for Renderer {
    type V = RendererView;

    closed spec fn view(&self) -> RendererView {
        RendererView {
            cols: self.cols as nat,
            cursor_row: self.cursor_row as nat,
            end_row: self.end_row as nat,
            padded: self.padded,
            drawn: self.drawn,
        }
    }
}

/// A renderer that has drawn nothing, or forgot what it drew.
pub open spec fn forgotten(r: RendererView) -> RendererView {
    RendererView { cursor_row: 0, end_row: 0, padded: false, drawn: false, ..r }
}

/// `ESC [ n letter`.
pub open spec fn csi_n(n: nat, letter: char) -> Seq<char> {
    "\x1b["@ + decimal(n) + seq![letter]
}

/// The escapes that move the cursor from row `from` to row `to`.
pub open spec fn move_rows_spec(from: nat, to: nat) -> Seq<char> {
    if from > to {
        csi_n((from - to) as nat, 'A')
    } else if from < to {
        csi_n((to - from) as nat, 'B')
    } else {
        Seq::empty()
    }
}

/// The escapes that return to the top-left of the drawn block and erase
/// everything below it; nothing when nothing is drawn.
pub open spec fn rewind_spec(r: RendererView) -> Seq<char> {
    if !r.drawn {
        Seq::empty()
    } else {
        "\r"@ + (if r.cursor_row > 0 { csi_n(r.cursor_row, 'A') } else { Seq::empty() }) + "\x1b[J"@
    }
}

/// Where a frame leaves the renderer, and what it writes after the text,
/// for text `total` cells wide with the cursor `target` cells in.
pub open spec fn frame_after(r: RendererView, total: nat, target: nat) -> (RendererView, Seq<char>) {
    let cols = r.cols;
    let padded = total > 0 && total % cols == 0;
    let end_row = total / cols;
    let end_col = if padded { 0 } else { total % cols };
    let cursor_row = target / cols;
    let cursor_col = target % cols;
    let out = (if padded { " \r"@ } else { Seq::empty() })
        + move_rows_spec(end_row, cursor_row) + (if cursor_col != end_col || cursor_row != end_row {
        "\r"@ + (if cursor_col > 0 { csi_n(cursor_col, 'C') } else { Seq::empty() })
    } else {
        Seq::empty()
    });
    (RendererView {
        cols,
        end_row: end_row % 0x10000,
        cursor_row: cursor_row % 0x10000,
        padded,
        drawn: true,
    }, out)
}

/// What `frame` writes and where it leaves the renderer.
pub open spec fn frame_spec(r: RendererView, prompt: Seq<char>, line: Seq<char>, cursor_cols: nat) -> (RendererView, Seq<char>) {
    let total = sat(width_spec(prompt) + width_spec(line));
    let target = sat(width_spec(prompt) + cursor_cols);
    let (r1, tail) = frame_after(r, total, target);
    (r1, rewind_spec(r) + prompt + line + tail)
}

/// What `finish` writes: down to the end of the block, the padding erased,
/// and a fresh line.
pub open spec fn finish_spec(r: RendererView) -> Seq<char> {
    (if r.drawn {
        move_rows_spec(r.cursor_row, r.end_row) + (if r.padded { "\r\x1b[K"@ } else { Seq::empty() })
    } else {
        Seq::empty()
    }) + "\r\n"@
}

fn push_csi(out: &mut String, n: usize, letter: char)
    ensures
        final(out)@ == old(out)@ + csi_n(n as nat, letter),
{
    out.append("\x1b[");
    push_decimal(out, n);
    out.push(letter);
    proof {
        assert(final(out)@ =~= old(out)@ + csi_n(n as nat, letter));
    }
}

fn move_rows(out: &mut String, from: usize, to: usize)
    ensures
        final(out)@ == old(out)@ + move_rows_spec(from as nat, to as nat),
{
    if from > to {
        push_csi(out, from - to, 'A');
    } else if from < to {
        push_csi(out, to - from, 'B');
    } else {
        assert(old(out)@ + Seq::<char>::empty() =~= old(out)@);
    }
}

impl Renderer {
    pub closed spec fn wf(&self) -> bool {
        self.cols >= 1
    }

    pub fn new(cols: u16) -> (r: Self)
        ensures
            r.wf(),
            r@ == (RendererView { cols: if cols >= 1 { cols as nat } else { 1 }, cursor_row: 0, end_row: 0, padded: false, drawn: false }),
    {
        Self { cols: if cols >= 1 { cols } else { 1 }, cursor_row: 0, end_row: 0, padded: false, drawn: false }
    }

    /// Tell the renderer the terminal is a different width now.
    pub fn set_cols(&mut self, cols: u16)
        ensures
            final(self).wf(),
            final(self)@ == (RendererView { cols: if cols >= 1 { cols as nat } else { 1 }, ..old(self)@ }),
    {
        self.cols = if cols >= 1 { cols } else { 1 };
    }

    pub fn cols(&self) -> (r: u16)
        ensures
            r == self@.cols,
    {
        self.cols
    }

    /// Forget the drawn block without erasing it: the next frame draws
    /// where the cursor is now.
    pub fn forget(&mut self)
        ensures
            final(self)@ == forgotten(old(self)@),
            old(self).wf() ==> final(self).wf(),
    {
        self.cursor_row = 0;
        self.end_row = 0;
        self.padded = false;
        self.drawn = false;
    }

    /// The escapes that replace the drawn block with `prompt` + `line` and
    /// leave the cursor `cursor_cols` cells into the line.
    ///
    /// Both strings may carry SGR escapes; widths ignore them.
    pub fn frame(&mut self, prompt: &str, line: &str, cursor_cols: usize) -> (out: String)
        requires
            old(self).wf(),
        ensures
            final(self).wf(),
            (final(self)@, out@) == frame_spec(old(self)@, prompt@, line@, cursor_cols as nat),
    {
        let mut out = String::new();
        self.rewind(&mut out);
        out.append(prompt);
        out.append(line);
        let prompt_width = display_width(prompt);
        let total = prompt_width.saturating_add(display_width(line));
        let target = prompt_width.saturating_add(cursor_cols);
        let ghost head = out@;
        let tail = self.place(total, target);
        out.append(tail.as_str());
        proof {
            assert(head == rewind_spec(old(self)@) + prompt@ + line@);
            assert(out@ =~= frame_spec(old(self)@, prompt@, line@, cursor_cols as nat).1);
        }
        out
    }

    /// Record where text `total` cells wide ends and the cursor `target`
    /// cells in lands, and write what moves the cursor there from the end of
    /// the text.
    fn place(&mut self, total: usize, target: usize) -> (out: String)
        requires
            old(self).wf(),
        ensures
            final(self).wf(),
            (final(self)@, out@) == frame_after(old(self)@, total as nat, target as nat),
    {
        let cols = self.cols as usize;
        let mut out = String::new();
        let padded = total > 0 && total % cols == 0;
        self.padded = padded;
        if padded {
            out.append(" \r");
        }
        let end_row = total / cols;
        let end_col = if padded { 0 } else { total % cols };
        let cursor_row = target / cols;
        let cursor_col = target % cols;
        move_rows(&mut out, end_row, cursor_row);
        if cursor_col != end_col || cursor_row != end_row {
            out.append("\r");
            if cursor_col > 0 {
                push_csi(&mut out, cursor_col, 'C');
            }
        }
        self.end_row = (end_row % 0x10000) as u16;
        self.cursor_row = (cursor_row % 0x10000) as u16;
        self.drawn = true;
        proof {
            assert(out@ =~= frame_after(old(self)@, total as nat, target as nat).1);
        }
        out
    }

    /// The escapes that erase the drawn block, leaving the cursor where it
    /// began.
    pub fn erase(&mut self) -> (out: String)
        requires
            old(self).wf(),
        ensures
            final(self).wf(),
            out@ == rewind_spec(old(self)@),
            final(self)@ == forgotten(old(self)@),
    {
        let mut out = String::new();
        self.rewind(&mut out);
        self.forget();
        assert(out@ =~= rewind_spec(old(self)@));
        out
    }

    /// The escapes that leave the drawn block on screen and move to a fresh
    /// line below it, for after a line is accepted.
    pub fn finish(&mut self) -> (out: String)
        requires
            old(self).wf(),
        ensures
            final(self).wf(),
            out@ == finish_spec(old(self)@),
            final(self)@ == forgotten(old(self)@),
    {
        let mut out = String::new();
        if self.drawn {
            move_rows(&mut out, self.cursor_row as usize, self.end_row as usize);
            if self.padded {
                out.append("\r\x1b[K");
            }
        }
        out.append("\r\n");
        self.forget();
        assert(out@ =~= finish_spec(old(self)@));
        out
    }

    /// Move to the top-left of the drawn block and erase everything below.
    fn rewind(&self, out: &mut String)
        ensures
            final(out)@ == old(out)@ + rewind_spec(self@),
    {
        if !self.drawn {
            assert(old(out)@ + Seq::<char>::empty() =~= old(out)@);
            return;
        }
        out.append("\r");
        if self.cursor_row > 0 {
            push_csi(out, self.cursor_row as usize, 'A');
        }
        out.append("\x1b[J");
        assert(final(out)@ =~= old(out)@ + rewind_spec(self@));
    }
}

/// Colours do not shift the cursor: drawing an escape-free line painted in
/// a colour leaves the renderer where drawing the plain line does, and
/// writes the same cursor motion after the text.
pub proof fn law_colour_keeps_the_geometry(r: RendererView, prompt: Seq<char>, t: Seq<char>, color: Color, cursor_cols: nat)
    requires
        escape_free(t),
    ensures
        ({
            let painted = fg_spec(color) + t + fg_spec(Color::Default);
            let (r1, out1) = frame_spec(r, prompt, painted, cursor_cols);
            let (r2, out2) = frame_spec(r, prompt, t, cursor_cols);
            &&& r1 == r2
            &&& out1.skip((rewind_spec(r).len() + prompt.len() + painted.len()) as int) == out2.skip((rewind_spec(r).len() + prompt.len() + t.len()) as int)
        }),
{
    law_paint_is_invisible(t, color);
    let painted = fg_spec(color) + t + fg_spec(Color::Default);
    let total = sat(width_spec(prompt) + width_spec(t));
    let target = sat(width_spec(prompt) + cursor_cols);
    let tail = frame_after(r, total, target).1;
    let head1 = rewind_spec(r) + prompt + painted;
    let head2 = rewind_spec(r) + prompt + t;
    assert((head1 + tail).skip(head1.len() as int) =~= tail);
    assert((head2 + tail).skip(head2.len() as int) =~= tail);
}

/// A renderer that has drawn nothing draws its first frame in place: the
/// frame begins with the prompt and the line, with no rewind before them.
pub proof fn law_first_frame_draws_in_place(r: RendererView, prompt: Seq<char>, line: Seq<char>, cursor_cols: nat)
    requires
        !r.drawn,
    ensures
        rewind_spec(r) == Seq::<char>::empty(),
        (prompt + line).is_prefix_of(frame_spec(r, prompt, line, cursor_cols).1),
{
    let out = frame_spec(r, prompt, line, cursor_cols).1;
    assert(rewind_spec(r) + prompt + line =~= prompt + line);
    assert(out.take((prompt + line).len() as int) =~= prompt + line);
}

/// How many rows down a cursor motion moves the cursor, as a terminal
/// reads it: `ESC [ n A` is `n` rows up, `ESC [ n B` is `n` rows down, and
/// anything else (nothing at all, say) leaves the row alone.
pub open spec fn rows_moved(s: Seq<char>) -> int {
    if s.len() >= 3 && s[0] == '\x1b' && s[1] == '[' && (s.last() == 'A' || s.last() == 'B') {
        let n = digits_value(s.subrange(2, s.len() - 1)) as int;
        if s.last() == 'A' {
            -n
        } else {
            n
        }
    } else {
        0
    }
}

/// The digits `decimal` writes read back as the number.
pub proof fn lemma_decimal_reads_back(n: nat)
    ensures
        digits_value(decimal(n)) == n,
        decimal(n).len() >= 1,
    decreases n,
{
    assert(('0' as u32) == 48);
    if n < 10 {
        let d = seq![digit_char(n)];
        assert(d.drop_last() =~= Seq::<char>::empty());
        assert((digit_char(n) as u32) == n + 48);
        assert(d.last() == digit_char(n));
        assert(digits_value(d) == digits_value(d.drop_last()) * 10 + ((d.last() as u32) - ('0' as u32)) as nat);
        assert(digits_value(Seq::<char>::empty()) == 0);
    } else {
        lemma_decimal_reads_back(n / 10);
        let d = decimal(n / 10).push(digit_char(n % 10));
        assert(d.drop_last() =~= decimal(n / 10));
        assert((digit_char(n % 10) as u32) == n % 10 + 48);
        assert(d.last() == digit_char(n % 10));
        assert(digits_value(d) == digits_value(d.drop_last()) * 10 + ((d.last() as u32) - ('0' as u32)) as nat);
        assert((n / 10) * 10 + n % 10 == n) by (nonlinear_arith);
    }
}

/// The motion between two rows takes the cursor from the first to the
/// second: up when the target lies above, down when below, and nowhere
/// when they are the same row.
pub proof fn law_row_motion_lands_on_the_target_row(from: nat, to: nat)
    ensures
        from + rows_moved(move_rows_spec(from, to)) == to,
        from > to ==> move_rows_spec(from, to).last() == 'A',
        from < to ==> move_rows_spec(from, to).last() == 'B',
{
    reveal_strlit("\x1b[");
    if from != to {
        let n: nat = if from > to { (from - to) as nat } else { (to - from) as nat };
        let letter = if from > to { 'A' } else { 'B' };
        lemma_decimal_reads_back(n);
        let m = csi_n(n, letter);
        assert(m == seq!['\x1b', '['] + decimal(n) + seq![letter]);
        assert(m.subrange(2, m.len() - 1) =~= decimal(n));
        assert(m[0] == '\x1b');
        assert(m[1] == '[');
    }
}

/// A frame puts the cursor on the row of its target: after the text (and
/// the padding, when the text ends on the margin), the motion it writes
/// takes the cursor from the row where the text ends to the target's row,
/// and the rest of what it writes (a carriage return and a move right, if
/// any) stays on that row. Finishing goes the other way, down to the end.
pub proof fn law_frame_puts_the_cursor_on_the_target_row(r: RendererView, total: nat, target: nat)
    requires
        r.cols >= 1,
    ensures
        ({
            let cols = r.cols;
            let end_row = total / cols;
            let cursor_row = target / cols;
            let pad = if total > 0 && total % cols == 0 { " \r"@ } else { Seq::<char>::empty() };
            let out = frame_after(r, total, target).1;
            let head = pad + move_rows_spec(end_row, cursor_row);
            &&& head.is_prefix_of(out)
            &&& end_row + rows_moved(move_rows_spec(end_row, cursor_row)) == cursor_row
            &&& rows_moved(out.skip(head.len() as int)) == 0
        }),
        r.drawn ==> r.cursor_row + rows_moved(move_rows_spec(r.cursor_row, r.end_row)) == r.end_row,
        r.drawn && r.cursor_row > 0 ==> rewind_spec(r).len() > 4
            && rows_moved(rewind_spec(r).subrange(1, rewind_spec(r).len() - 3)) == -(r.cursor_row as int),
{
    let cols = r.cols;
    let end_row = total / cols;
    let cursor_row = target / cols;
    let end_col = if total > 0 && total % cols == 0 { 0 } else { total % cols };
    let cursor_col = target % cols;
    law_row_motion_lands_on_the_target_row(end_row, cursor_row);
    law_row_motion_lands_on_the_target_row(r.cursor_row, r.end_row);
    if r.drawn && r.cursor_row > 0 {
        law_row_motion_lands_on_the_target_row(r.cursor_row, 0);
        reveal_strlit("\x1b[J");
        reveal_strlit("\r");
        let w = rewind_spec(r);
        let m = csi_n(r.cursor_row, 'A');
        assert(w == "\r"@ + m + "\x1b[J"@);
        assert("\r"@.len() == 1 && "\x1b[J"@.len() == 3);
        assert(w.len() == m.len() + 4);
        assert(w.subrange(1, w.len() - 3) =~= m);
    }
    let rest = if cursor_col != end_col || cursor_row != end_row {
        "\r"@ + (if cursor_col > 0 { csi_n(cursor_col, 'C') } else { Seq::empty() })
    } else {
        Seq::<char>::empty()
    };
    reveal_strlit("\r");
    reveal_strlit(" \r");
    if rest.len() > 0 {
        assert(rest[0] == '\r');
    }
    assert(rows_moved(rest) == 0);
    let pad = if total > 0 && total % cols == 0 { " \r"@ } else { Seq::<char>::empty() };
    let out = frame_after(r, total, target).1;
    let head = pad + move_rows_spec(end_row, cursor_row);
    assert(out == head + rest);
    assert(out.skip(head.len() as int) =~= rest);
    assert(out.take(head.len() as int) =~= head);
}

/// The column a carriage return followed by `ESC [ n C` (n columns
/// right) leaves the cursor in, as a terminal reads it: a carriage return
/// alone leaves it in column 0.
pub open spec fn column_after_return(s: Seq<char>) -> int {
    let t = s.drop_first();
    if t.len() >= 3 && t[0] == '\x1b' && t[1] == '[' && t.last() == 'C' {
        digits_value(t.subrange(2, t.len() - 1)) as int
    } else {
        0
    }
}

/// A frame puts the cursor in the column of its target: after the row
/// motion, either the cursor is already there (the target is where the
/// text ends), or it returns to the start of the row and moves right to
/// the target's column.
pub proof fn law_frame_puts_the_cursor_in_the_target_column(r: RendererView, total: nat, target: nat)
    requires
        r.cols >= 1,
    ensures
        ({
            let cols = r.cols;
            let end_row = total / cols;
            let cursor_row = target / cols;
            let pad = if total > 0 && total % cols == 0 { " \r"@ } else { Seq::<char>::empty() };
            let end_col = if total > 0 && total % cols == 0 { 0 } else { total % cols };
            let out = frame_after(r, total, target).1;
            let rest = out.skip((pad + move_rows_spec(end_row, cursor_row)).len() as int);
            &&& rest.len() == 0 ==> end_col == target % cols && end_row == cursor_row
            &&& rest.len() > 0 ==> rest[0] == '\r' && column_after_return(rest) == target % cols
        }),
{
    let cols = r.cols;
    let end_row = total / cols;
    let cursor_row = target / cols;
    let end_col = if total > 0 && total % cols == 0 { 0 } else { total % cols };
    let cursor_col = target % cols;
    let pad = if total > 0 && total % cols == 0 { " \r"@ } else { Seq::<char>::empty() };
    reveal_strlit("\r");
    reveal_strlit("\x1b[");
    let rest = if cursor_col != end_col || cursor_row != end_row {
        "\r"@ + (if cursor_col > 0 { csi_n(cursor_col, 'C') } else { Seq::empty() })
    } else {
        Seq::<char>::empty()
    };
    let out = frame_after(r, total, target).1;
    let head = pad + move_rows_spec(end_row, cursor_row);
    assert(out == head + rest);
    assert(out.skip(head.len() as int) =~= rest);
    if rest.len() > 0 {
        assert(rest[0] == '\r');
        if cursor_col > 0 {
            lemma_decimal_reads_back(cursor_col);
            let m = csi_n(cursor_col, 'C');
            assert(rest.drop_first() =~= m);
            assert(m == seq!['\x1b', '['] + decimal(cursor_col) + seq!['C']);
            assert(m.subrange(2, m.len() - 1) =~= decimal(cursor_col));
        } else {
            assert(rest.drop_first() =~= Seq::<char>::empty());
        }
    }
}

} // verus!
