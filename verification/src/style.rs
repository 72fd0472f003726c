//! ANSI text: measuring it, and the small palette used to produce it.
//!
//! A highlighter returns a line with SGR escapes already in it, so every
//! width the renderer computes has to ignore those escapes. Both halves of
//! that bargain live here: the helpers a highlighter writes with, and the
//! measurement that stays honest in their presence.

use vstd::prelude::*;
use unicode_width::UnicodeWidthChar;
use crate::text::{chars_of, string_of};
use crate::shell::command::digits_value;

verus! {

broadcast use vstd::string::group_string_axioms;

pub const RESET: &'static str = "\x1b[0m";
pub const BOLD: &'static str = "\x1b[1m";
pub const DIM: &'static str = "\x1b[2m";
pub const ITALIC: &'static str = "\x1b[3m";
pub const UNDERLINE: &'static str = "\x1b[4m";
pub const REVERSE: &'static str = "\x1b[7m";

/// The eight ANSI colors, their bright variants, and "whatever the terminal
/// was using".
#[derive(Clone, Copy, PartialEq, Eq, Debug, Structural)]
pub enum Color {
    Black,
    Red,
    Green,
    Yellow,
    Blue,
    Magenta,
    Cyan,
    White,
    BrightBlack,
    BrightRed,
    BrightGreen,
    BrightYellow,
    BrightBlue,
    BrightMagenta,
    BrightCyan,
    BrightWhite,
    Default,
}

/// The SGR parameter that sets `color` as the foreground.
pub open spec fn fg_code(color: Color) -> Seq<char> {
    match color {
        Color::Black => "30"@,
        Color::Red => "31"@,
        Color::Green => "32"@,
        Color::Yellow => "33"@,
        Color::Blue => "34"@,
        Color::Magenta => "35"@,
        Color::Cyan => "36"@,
        Color::White => "37"@,
        Color::BrightBlack => "90"@,
        Color::BrightRed => "91"@,
        Color::BrightGreen => "92"@,
        Color::BrightYellow => "93"@,
        Color::BrightBlue => "94"@,
        Color::BrightMagenta => "95"@,
        Color::BrightCyan => "96"@,
        Color::BrightWhite => "97"@,
        Color::Default => "39"@,
    }
}

/// The SGR sequence that sets `color` as the foreground: `ESC [ code m`.
pub open spec fn fg_spec(color: Color) -> Seq<char> {
    "\x1b["@ + fg_code(color) + "m"@
}

/// The SGR sequence that sets `color` as the foreground.
pub fn fg(color: Color) -> (r: &'static str)
    ensures
        r@ == fg_spec(color),
{
    proof {
        reveal_strlit("\x1b[");
        reveal_strlit("m");
        reveal_strlit("30");
        reveal_strlit("31");
        reveal_strlit("32");
        reveal_strlit("33");
        reveal_strlit("34");
        reveal_strlit("35");
        reveal_strlit("36");
        reveal_strlit("37");
        reveal_strlit("90");
        reveal_strlit("91");
        reveal_strlit("92");
        reveal_strlit("93");
        reveal_strlit("94");
        reveal_strlit("95");
        reveal_strlit("96");
        reveal_strlit("97");
        reveal_strlit("39");
    }
    let r = match color {
        Color::Black => "\x1b[30m",
        Color::Red => "\x1b[31m",
        Color::Green => "\x1b[32m",
        Color::Yellow => "\x1b[33m",
        Color::Blue => "\x1b[34m",
        Color::Magenta => "\x1b[35m",
        Color::Cyan => "\x1b[36m",
        Color::White => "\x1b[37m",
        Color::BrightBlack => "\x1b[90m",
        Color::BrightRed => "\x1b[91m",
        Color::BrightGreen => "\x1b[92m",
        Color::BrightYellow => "\x1b[93m",
        Color::BrightBlue => "\x1b[94m",
        Color::BrightMagenta => "\x1b[95m",
        Color::BrightCyan => "\x1b[96m",
        Color::BrightWhite => "\x1b[97m",
        Color::Default => "\x1b[39m",
    };
    proof {
        reveal_strlit("\x1b[30m");
        reveal_strlit("\x1b[31m");
        reveal_strlit("\x1b[32m");
        reveal_strlit("\x1b[33m");
        reveal_strlit("\x1b[34m");
        reveal_strlit("\x1b[35m");
        reveal_strlit("\x1b[36m");
        reveal_strlit("\x1b[37m");
        reveal_strlit("\x1b[90m");
        reveal_strlit("\x1b[91m");
        reveal_strlit("\x1b[92m");
        reveal_strlit("\x1b[93m");
        reveal_strlit("\x1b[94m");
        reveal_strlit("\x1b[95m");
        reveal_strlit("\x1b[96m");
        reveal_strlit("\x1b[97m");
        reveal_strlit("\x1b[39m");
        assert(r@ =~= fg_spec(color));
    }
    r
}

/// `text` wrapped in `color` and a return to the default foreground.
pub fn paint(text: &str, color: Color) -> (r: String)
    ensures
        r@ == fg_spec(color) + text@ + fg_spec(Color::Default),
{
    let mut out = String::new();
    out.append(fg(color));
    out.append(text);
    out.append(fg(Color::Default));
    proof {
        assert(out@ =~= fg_spec(color) + text@ + fg_spec(Color::Default));
    }
    out
}

/// The index of the first char of `t` that ends a CSI sequence (a final
/// byte, `0x40`..=`0x7e`), if any.
pub open spec fn first_final(t: Seq<char>) -> Option<nat>
    decreases t.len(),
{
    if t.len() == 0 {
        None
    } else if '\u{40}' <= t[0] && t[0] <= '\u{7e}' {
        Some(0)
    } else {
        match first_final(t.drop_first()) {
            Some(k) => Some(k + 1),
            None => None,
        }
    }
}

/// A final char, when there is one, lies within the text searched.
pub proof fn lemma_first_final_bound(t: Seq<char>)
    ensures
        first_final(t) matches Some(k) ==> k < t.len(),
    decreases t.len(),
{
    if t.len() > 0 {
        lemma_first_final_bound(t.drop_first());
    }
}

/// `s` with every escape sequence removed.
///
/// Recognizes the two forms a highlighter can plausibly emit: CSI
/// (`ESC [ params final`) and the two-character escapes (`ESC` and one
/// more char). An unterminated sequence at the end swallows the rest.
pub open spec fn strip_spec(s: Seq<char>) -> Seq<char>
    decreases s.len(),
{
    if s.len() == 0 {
        Seq::empty()
    } else if s[0] == '\x1b' {
        if s.len() == 1 {
            Seq::empty()
        } else if s[1] == '[' {
            match first_final(s.skip(2)) {
                Some(k) => {
                    proof {
                        lemma_first_final_bound(s.skip(2));
                    }
                    strip_spec(s.skip(2).skip(k + 1int))
                },
                None => Seq::empty(),
            }
        } else {
            strip_spec(s.skip(2))
        }
    } else {
        seq![s[0]] + strip_spec(s.drop_first())
    }
}

/// What `UnicodeWidthChar::width` gives for `c`.
pub uninterp spec fn char_width(c: char) -> Option<usize>;

/// Calls `UnicodeWidthChar::width`. Its source returns `None` for the C0
/// and C1 control ranges and `Some(1)` for printable ASCII; any width is at
/// most 3 (its tables hold 0 to 2, and one code point is given 3). The
/// widths of the rest are left to the name `char_width`.
#[verifier::external_body]
fn unicode_width(c: char) -> (r: Option<usize>)
    ensures
        r == char_width(c),
        (c as u32) < 0x20 ==> r is None,
        0x20 <= (c as u32) < 0x7f ==> r == Some(1usize),
        0x7f <= (c as u32) < 0xa0 ==> r is None,
        r matches Some(w) ==> w <= 3,
{
    UnicodeWidthChar::width(c)
}

/// The cells `c` occupies: its width, or none for a control character.
pub open spec fn cells(c: char) -> nat {
    match char_width(c) {
        Some(w) => w as nat,
        None => 0,
    }
}

/// The cells the chars of `s` occupy.
pub open spec fn cells_of(s: Seq<char>) -> nat
    decreases s.len(),
{
    if s.len() == 0 {
        0
    } else {
        cells(s[0]) + cells_of(s.drop_first())
    }
}

/// `n` capped at `usize::MAX`.
pub open spec fn sat(n: nat) -> nat {
    if n <= usize::MAX {
        n
    } else {
        usize::MAX as nat
    }
}

/// The cells `s` occupies on screen, escapes ignored (capped at
/// `usize::MAX`).
pub open spec fn width_spec(s: Seq<char>) -> nat {
    sat(cells_of(strip_spec(s)))
}

/// The index in `s` of the first CSI final char at or after `from`.
fn find_final(s: &Vec<char>, from: usize) -> (r: Option<usize>)
    requires
        from <= s@.len(),
    ensures
        match first_final(s@.skip(from as int)) {
            Some(k) => r == Some((from + k) as usize),
            None => r is None,
        },
{
    let mut i = from;
    assert(s@.skip(from as int).skip(0) =~= s@.skip(from as int));
    while i < s.len()
        invariant
            from <= i <= s@.len(),
            first_final(s@.skip(from as int)) == match first_final(s@.skip(i as int)) {
                Some(k) => Some((k + (i - from)) as nat),
                None => None,
            },
        decreases s@.len() - i,
    {
        assert(s@.skip(i as int)[0] == s@[i as int]);
        assert(s@.skip(i as int).drop_first() =~= s@.skip(i + 1));
        if '\u{40}' <= s[i] && s[i] <= '\u{7e}' {
            return Some(i);
        }
        i = i + 1;
    }
    assert(s@.skip(i as int).len() == 0);
    None
}

/// The printable chars of `s`: `s` with every escape sequence removed.
fn printable(s: &Vec<char>) -> (r: Vec<char>)
    ensures
        r@ == strip_spec(s@),
{
    let mut out: Vec<char> = Vec::new();
    let mut i: usize = 0;
    let n = s.len();
    assert(s@.skip(0) =~= s@);
    while i < n
        invariant
            n == s@.len(),
            i <= n,
            strip_spec(s@) == out@ + strip_spec(s@.skip(i as int)),
        decreases n - i,
    {
        let ghost rest = s@.skip(i as int);
        assert(rest[0] == s@[i as int]);
        if s[i] == '\x1b' {
            if i + 1 == n {
                assert(out@ + Seq::<char>::empty() =~= out@);
                assert(strip_spec(s@.skip(n as int)) == Seq::<char>::empty());
                i = n;
            } else if s[i + 1] == '[' {
                assert(rest[1] == s@[i + 1]);
                assert(rest.skip(2) =~= s@.skip(i + 2));
                proof {
                    lemma_first_final_bound(s@.skip(i + 2));
                }
                match find_final(s, i + 2) {
                    Some(j) => {
                        assert(rest.skip(2).skip((j - (i + 2)) + 1) =~= s@.skip(j + 1));
                        i = j + 1;
                    },
                    None => {
                        assert(out@ + Seq::<char>::empty() =~= out@);
                        assert(strip_spec(s@.skip(n as int)) == Seq::<char>::empty());
                        i = n;
                    },
                }
            } else {
                assert(rest[1] == s@[i + 1]);
                assert(rest.skip(2) =~= s@.skip(i + 2));
                i = i + 2;
            }
        } else {
            assert(rest.drop_first() =~= s@.skip(i + 1));
            let c = s[i];
            out.push(c);
            proof {
                assert(out@.drop_last() + (seq![c] + strip_spec(s@.skip(i + 1))) =~= out@ + strip_spec(s@.skip(i + 1)));
            }
            i = i + 1;
        }
    }
    assert(s@.skip(i as int) =~= Seq::<char>::empty());
    assert(out@ + Seq::<char>::empty() =~= out@);
    out
}

/// `s` with every escape sequence removed.
pub fn strip(s: &str) -> (r: String)
    ensures
        r@ == strip_spec(s@),
{
    let chars = chars_of(s);
    let kept = printable(&chars);
    string_of(kept.as_slice())
}

/// The cells the chars of `s` occupy, capped at `usize::MAX`.
fn cells_in(s: &Vec<char>) -> (r: usize)
    ensures
        r == sat(cells_of(s@)),
{
    let mut total: usize = 0;
    let mut i: usize = s.len();
    assert(s@.skip(s@.len() as int) =~= Seq::<char>::empty());
    while i > 0
        invariant
            i <= s@.len(),
            total == sat(cells_of(s@.skip(i as int))),
        decreases i,
    {
        i = i - 1;
        assert(s@.skip(i as int).drop_first() =~= s@.skip(i + 1));
        assert(s@.skip(i as int)[0] == s@[i as int]);
        let w: usize = match unicode_width(s[i]) {
            Some(w) => w,
            None => 0,
        };
        assert(w == cells(s@[i as int]));
        assert(cells_of(s@.skip(i as int)) == cells(s@[i as int]) + cells_of(s@.skip(i + 1)));
        total = total.saturating_add(w);
    }
    assert(s@.skip(0) =~= s@);
    total
}

/// The number of terminal cells `s` occupies, ignoring any escape
/// sequences in it. Control characters count as zero.
pub fn display_width(s: &str) -> (r: usize)
    ensures
        r == width_spec(s@),
{
    let chars = chars_of(s);
    let kept = printable(&chars);
    cells_in(&kept)
}

/// `display_width` over chars.
pub fn width_of_chars(s: &Vec<char>) -> (r: usize)
    ensures
        r == width_spec(s@),
{
    let kept = printable(s);
    cells_in(&kept)
}


/// Whether `t` holds no escape character.
pub open spec fn escape_free(t: Seq<char>) -> bool {
    forall|i: int| 0 <= i < t.len() ==> t[i] != '\x1b'
}

/// A foreground sequence in front of any text strips away entirely.
pub proof fn lemma_strip_fg(color: Color, rest: Seq<char>)
    ensures
        strip_spec(fg_spec(color) + rest) == strip_spec(rest),
{
    reveal_strlit("\x1b[");
    reveal_strlit("m");
    reveal_strlit("30");
    reveal_strlit("31");
    reveal_strlit("32");
    reveal_strlit("33");
    reveal_strlit("34");
    reveal_strlit("35");
    reveal_strlit("36");
    reveal_strlit("37");
    reveal_strlit("90");
    reveal_strlit("91");
    reveal_strlit("92");
    reveal_strlit("93");
    reveal_strlit("94");
    reveal_strlit("95");
    reveal_strlit("96");
    reveal_strlit("97");
    reveal_strlit("39");
    let s = fg_spec(color) + rest;
    let code = fg_code(color);
    assert(code.len() == 2);
    assert('0' <= code[0] <= '9' && '0' <= code[1] <= '9');
    assert(s[0] == '\x1b');
    assert(s[1] == '[');
    let t = s.skip(2);
    assert(t =~= code + ("m"@ + rest));
    assert(t.drop_first().drop_first() =~= "m"@ + rest);
    assert(first_final("m"@ + rest) == Some(0nat));
    assert(first_final(t.drop_first()) == Some(1nat));
    assert(first_final(t) == Some(2nat));
    assert(t.skip(3) =~= rest);
}

/// Escape-free text strips to itself, whatever follows it.
pub proof fn lemma_strip_plain(t: Seq<char>, x: Seq<char>)
    requires
        escape_free(t),
    ensures
        strip_spec(t + x) == t + strip_spec(x),
    decreases t.len(),
{
    if t.len() == 0 {
        assert(t + x =~= x);
        assert(t + strip_spec(x) =~= strip_spec(x));
    } else {
        let s = t + x;
        assert(s[0] == t[0]);
        assert(s.drop_first() =~= t.drop_first() + x);
        lemma_strip_plain(t.drop_first(), x);
        assert(seq![t[0]] + (t.drop_first() + strip_spec(x)) =~= t + strip_spec(x));
    }
}

/// Painting escape-free text adds nothing printable: stripping the result
/// gives the text back, and it measures the same, so colours do not shift
/// the cursor.
pub proof fn law_paint_is_invisible(t: Seq<char>, color: Color)
    requires
        escape_free(t),
    ensures
        strip_spec(fg_spec(color) + t + fg_spec(Color::Default)) == t,
        width_spec(fg_spec(color) + t + fg_spec(Color::Default)) == width_spec(t),
{
    let tail = fg_spec(Color::Default);
    assert(fg_spec(color) + t + tail =~= fg_spec(color) + (t + tail));
    lemma_strip_fg(color, t + tail);
    lemma_strip_plain(t, tail);
    lemma_strip_fg(Color::Default, Seq::empty());
    assert(tail + Seq::<char>::empty() =~= tail);
    assert(strip_spec(Seq::<char>::empty()) == Seq::<char>::empty());
    assert(t + Seq::<char>::empty() =~= t);
    lemma_strip_plain(t, Seq::empty());
}

/// A colour's escape strips away to nothing, whichever the colour.
pub proof fn law_colour_code_strips_away(color: Color)
    ensures
        strip_spec(fg_spec(color)) == Seq::<char>::empty(),
{
    lemma_strip_fg(color, Seq::empty());
    assert(fg_spec(color) + Seq::<char>::empty() =~= fg_spec(color));
}

/// What `strip` leaves holds no escape character.
pub proof fn lemma_strip_is_escape_free(s: Seq<char>)
    ensures
        escape_free(strip_spec(s)),
    decreases s.len(),
{
    if s.len() == 0 {
    } else if s[0] == '\x1b' {
        if s.len() == 1 {
        } else if s[1] == '[' {
            lemma_first_final_bound(s.skip(2));
            match first_final(s.skip(2)) {
                Some(k) => {
                    lemma_strip_is_escape_free(s.skip(2).skip(k + 1int));
                },
                None => {},
            }
        } else {
            lemma_strip_is_escape_free(s.skip(2));
        }
    } else {
        lemma_strip_is_escape_free(s.drop_first());
        let r = seq![s[0]] + strip_spec(s.drop_first());
        assert forall|i: int| 0 <= i < r.len() implies r[i] != '\x1b' by {
            if i > 0 {
                assert(r[i] == strip_spec(s.drop_first())[i - 1]);
            }
        }
    }
}

/// Stripping is done in one pass: the result holds no escape character,
/// and stripping it again changes nothing.
pub proof fn law_strip_is_idempotent(s: Seq<char>)
    ensures
        escape_free(strip_spec(s)),
        strip_spec(strip_spec(s)) == strip_spec(s),
{
    lemma_strip_is_escape_free(s);
    lemma_strip_plain(strip_spec(s), Seq::empty());
    assert(strip_spec(s) + Seq::<char>::empty() =~= strip_spec(s));
    assert(strip_spec(Seq::<char>::empty()) =~= Seq::<char>::empty());
}

/// Each colour is the SGR foreground code ANSI gives it: `ESC [ n m` with
/// n from 30 (black) through red, green, yellow, blue, magenta and cyan to
/// 37 (white), 90 to 97 for their bright forms, and 39 for the default.
pub proof fn law_colours_are_the_ansi_codes(color: Color)
    ensures
        ({
            let f = fg_spec(color);
            &&& f.len() == 5
            &&& f[0] == '\x1b' && f[1] == '[' && f[4] == 'm'
            &&& digits_value(f.subrange(2, 4)) == match color {
                Color::Black => 30nat,
                Color::Red => 31nat,
                Color::Green => 32nat,
                Color::Yellow => 33nat,
                Color::Blue => 34nat,
                Color::Magenta => 35nat,
                Color::Cyan => 36nat,
                Color::White => 37nat,
                Color::BrightBlack => 90nat,
                Color::BrightRed => 91nat,
                Color::BrightGreen => 92nat,
                Color::BrightYellow => 93nat,
                Color::BrightBlue => 94nat,
                Color::BrightMagenta => 95nat,
                Color::BrightCyan => 96nat,
                Color::BrightWhite => 97nat,
                Color::Default => 39nat,
            }
        }),
{
    reveal_strlit("\x1b[");
    reveal_strlit("m");
    reveal_strlit("30");
    reveal_strlit("31");
    reveal_strlit("32");
    reveal_strlit("33");
    reveal_strlit("34");
    reveal_strlit("35");
    reveal_strlit("36");
    reveal_strlit("37");
    reveal_strlit("90");
    reveal_strlit("91");
    reveal_strlit("92");
    reveal_strlit("93");
    reveal_strlit("94");
    reveal_strlit("95");
    reveal_strlit("96");
    reveal_strlit("97");
    reveal_strlit("39");
    let f = fg_spec(color);
    let code = fg_code(color);
    assert(f.subrange(2, 4) =~= code);
    assert(code.len() == 2);
    lemma_two_digits(code);
}

/// The value of two decimal digits.
proof fn lemma_two_digits(code: Seq<char>)
    requires
        code.len() == 2,
        '0' <= code[0] <= '9',
        '0' <= code[1] <= '9',
    ensures
        digits_value(code) == ((code[0] as u32) - ('0' as u32)) as nat * 10 + ((code[1] as u32) - ('0' as u32)) as nat,
{
    assert(code.drop_last() =~= seq![code[0]]);
    assert(seq![code[0]].drop_last() =~= Seq::<char>::empty());
    assert(digits_value(Seq::<char>::empty()) == 0);
    assert(digits_value(seq![code[0]]) == ((code[0] as u32) - ('0' as u32)) as nat);
}

} // verus!
