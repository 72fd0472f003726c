//! The demo prompt's own logic: the commands it knows, what each one
//! prints, and the highlighter that paints the command word.

use vstd::prelude::*;
use std::borrow::Cow;
use crate::extend::Highlighter;
use crate::style::{Color, escape_free, fg, fg_spec, lemma_strip_fg, lemma_strip_plain, strip_spec};
use crate::term::{Capabilities, Size};
use crate::text::{chars_of, decimal, is_ws, is_whitespace, push_decimal, string_of};

verus! {

/// The commands the demo knows: what Tab offers, and what the highlighter
/// paints green.
pub open spec fn demo_commands() -> Seq<Seq<char>> {
    seq!["caps"@, "echo"@, "exit"@, "help"@, "history"@]
}

/// The commands the demo knows, in the order `help` lists them.
pub fn commands() -> (r: Vec<&'static str>)
    ensures
        r@.map_values(|c: &'static str| c@) == demo_commands(),
{
    let r = vec!["caps", "echo", "exit", "help", "history"];
    assert(r@.map_values(|c: &'static str| c@) =~= demo_commands());
    r
}

/// The number of whitespace chars `s` starts with.
pub open spec fn leading_ws(s: Seq<char>) -> nat
    decreases s.len(),
{
    if s.len() > 0 && is_ws(s[0]) { 1 + leading_ws(s.drop_first()) } else { 0 }
}

/// The number of whitespace chars `s` ends with.
pub open spec fn trailing_ws(s: Seq<char>) -> nat
    decreases s.len(),
{
    if s.len() > 0 && is_ws(s.last()) { 1 + trailing_ws(s.drop_last()) } else { 0 }
}

/// `s` without its leading whitespace, as `str::trim_start` gives it.
pub open spec fn trim_start_spec(s: Seq<char>) -> Seq<char> {
    s.skip(leading_ws(s) as int)
}

/// `s` without leading or trailing whitespace, as `str::trim` gives it.
pub open spec fn trim_spec(s: Seq<char>) -> Seq<char> {
    let t = trim_start_spec(s);
    t.take(t.len() - trailing_ws(t))
}

/// The index of the first whitespace char of `s`.
pub open spec fn first_ws(s: Seq<char>) -> Option<nat>
    decreases s.len(),
{
    if s.len() == 0 {
        None
    } else if is_ws(s[0]) {
        Some(0)
    } else {
        match first_ws(s.drop_first()) {
            Some(i) => Some(i + 1),
            None => None,
        }
    }
}

/// A trimmed line split into its command word and the trimmed rest.
pub open spec fn split_command(line: Seq<char>) -> (Seq<char>, Seq<char>) {
    let t = trim_spec(line);
    match first_ws(t) {
        Some(i) => (t.take(i as int), trim_spec(t.skip((i + 1) as int))),
        None => (t, Seq::empty()),
    }
}

/// `text` right-aligned in `width` cells, as `{:>width}` formats it.
pub open spec fn pad_left(text: Seq<char>, width: nat) -> Seq<char> {
    if text.len() < width { Seq::new((width - text.len()) as nat, |i: int| ' ') + text } else { text }
}

/// The `history` listing: each entry numbered from one, right-aligned in
/// four cells.
pub open spec fn history_listing(entries: Seq<Seq<char>>, n: nat) -> Seq<char>
    decreases n,
{
    if n == 0 || n > entries.len() {
        Seq::empty()
    } else {
        history_listing(entries, (n - 1) as nat) + pad_left(decimal(n), 4) + "  "@ + entries[n - 1] + "\n"@
    }
}

/// `true` or `false`, as `Display` writes a `bool`.
pub open spec fn bool_text(b: bool) -> Seq<char> {
    if b { "true"@ } else { "false"@ }
}

/// What `caps` prints.
pub open spec fn caps_text(caps: Capabilities, size: Size) -> Seq<char> {
    "raw mode: "@ + bool_text(caps.raw_mode) + "\nansi: "@ + bool_text(caps.ansi) + "\nresize events: "@
        + bool_text(caps.resize_events) + "\nsize: "@ + decimal(size.cols as nat) + "x"@ + decimal(size.rows as nat) + "\n"@
}

/// `items` joined with `", "`.
pub open spec fn comma_list(items: Seq<Seq<char>>) -> Seq<char>
    decreases items.len(),
{
    if items.len() == 0 {
        Seq::empty()
    } else if items.len() == 1 {
        items[0]
    } else {
        comma_list(items.drop_last()) + ", "@ + items.last()
    }
}

/// What running `line` prints, if anything, and whether the prompt ends.
pub open spec fn dispatch_spec(line: Seq<char>, history: Seq<Seq<char>>, caps: Capabilities, size: Size) -> (Option<Seq<char>>, bool) {
    let (command, rest) = split_command(line);
    if command.len() == 0 {
        (None, false)
    } else if command == "exit"@ {
        (None, true)
    } else if command == "echo"@ {
        (Some(rest + "\n"@), false)
    } else if command == "help"@ {
        (Some("commands: "@ + comma_list(demo_commands()) + "\n"@), false)
    } else if command == "history"@ {
        (Some(history_listing(history, history.len())), false)
    } else if command == "caps"@ {
        (Some(caps_text(caps, size)), false)
    } else {
        (Some("unknown command: "@ + command + "\n"@), false)
    }
}

/// What one command does at the demo prompt.
#[derive(Debug)]
pub struct Outcome {
    /// Text to print.
    pub output: Option<String>,
    /// The prompt ends.
    pub quit: bool,
}

fn trim_chars(s: &Vec<char>) -> (r: Vec<char>)
    ensures
        r@ == trim_spec(s@),
{
    let n = s.len();
    let mut a: usize = 0;
    assert(s@.skip(0) =~= s@);
    while a < n && is_whitespace(s[a])
        invariant
            n == s@.len(),
            a <= n,
            leading_ws(s@) == a + leading_ws(s@.skip(a as int)),
        decreases n - a,
    {
        assert(s@.skip(a as int).drop_first() =~= s@.skip(a + 1));
        a = a + 1;
    }
    proof {
        if a < n {
            assert(s@.skip(a as int)[0] == s@[a as int]);
        }
        assert(leading_ws(s@.skip(a as int)) == 0);
    }
    let t = crate::segment::skip_chars(s, a);
    let m = t.len();
    let mut b = m;
    assert(t@.take(m as int) =~= t@);
    while b > 0 && is_whitespace(t[b - 1])
        invariant
            m == t@.len(),
            b <= m,
            trailing_ws(t@) == (m - b) + trailing_ws(t@.take(b as int)),
        decreases b,
    {
        assert(t@.take(b as int).drop_last() =~= t@.take(b - 1));
        b = b - 1;
    }
    proof {
        if b > 0 {
            assert(t@.take(b as int).last() == t@[b - 1]);
        }
        assert(trailing_ws(t@.take(b as int)) == 0);
    }
    crate::segment::take_chars(&t, b)
}

fn first_ws_index(s: &Vec<char>) -> (r: Option<usize>)
    ensures
        match r {
            Some(i) => first_ws(s@) == Some(i as nat) && i < s@.len(),
            None => first_ws(s@) is None,
        },
{
    let mut i: usize = 0;
    assert(s@.skip(0) =~= s@);
    while i < s.len()
        invariant
            i <= s@.len(),
            first_ws(s@) == match first_ws(s@.skip(i as int)) {
                Some(k) => Some((k + i) as nat),
                None => None,
            },
        decreases s@.len() - i,
    {
        assert(s@.skip(i as int)[0] == s@[i as int]);
        assert(s@.skip(i as int).drop_first() =~= s@.skip(i + 1));
        if is_whitespace(s[i]) {
            return Some(i);
        }
        i = i + 1;
    }
    assert(s@.skip(i as int) =~= Seq::<char>::empty());
    None
}

fn equals(a: &Vec<char>, b: &str) -> (r: bool)
    ensures
        r == (a@ == b@),
{
    let y = chars_of(b);
    if a.len() != y.len() {
        return false;
    }
    let mut i: usize = 0;
    while i < a.len()
        invariant
            y@ == b@,
            a@.len() == y@.len(),
            i <= a@.len(),
            forall|j: int| 0 <= j < i ==> a@[j] == y@[j],
        decreases a@.len() - i,
    {
        if a[i] != y[i] {
            return false;
        }
        i = i + 1;
    }
    assert(a@ =~= y@);
    true
}

fn push_bool(out: &mut String, b: bool)
    ensures
        final(out)@ == old(out)@ + bool_text(b),
{
    if b {
        out.append("true");
    } else {
        out.append("false");
    }
}

/// Run one command line at the demo prompt, given what `history` and `caps`
/// would show.
pub fn dispatch(line: &str, history: &[String], caps: Capabilities, size: Size) -> (r: Outcome)
    ensures
        (match r.output {
            Some(s) => Some(s@),
            None => None,
        }, r.quit) == dispatch_spec(line@, history@.map_values(|h: String| h@), caps, size),
{
    let t = trim_chars(&chars_of(line));
    let tn = t.len();
    let (command, rest) = match first_ws_index(&t) {
        Some(i) => {
            let head = crate::segment::take_chars(&t, i);
            let tail = crate::segment::skip_chars(&t, i + 1);
            (head, trim_chars(&tail))
        },
        None => (t, Vec::new()),
    };
    proof {
        assert(rest@ == split_command(line@).1);
        assert(command@ == split_command(line@).0);
    }
    let ghost spec = dispatch_spec(line@, history@.map_values(|h: String| h@), caps, size);
    if command.len() == 0 {
        return Outcome { output: None, quit: false };
    }
    if equals(&command, "exit") {
        return Outcome { output: None, quit: true };
    }
    if equals(&command, "echo") {
        let mut out = string_of(rest.as_slice());
        out.append("\n");
        return Outcome { output: Some(out), quit: false };
    }
    if equals(&command, "help") {
        let mut out = String::from_str("commands: ");
        let names = commands();
        let mut i: usize = 0;
        let ghost all = names@.map_values(|c: &'static str| c@);
        let ghost start = out@;
        assert(all.take(0) =~= Seq::<Seq<char>>::empty());
        while i < names.len()
            invariant
                i <= names@.len(),
                all == names@.map_values(|c: &'static str| c@),
                all == demo_commands(),
                out@ == start + comma_list(all.take(i as int)),
            decreases names@.len() - i,
        {
            let ghost before = out@;
            if i > 0 {
                out.append(", ");
            }
            out.append(names[i]);
            proof {
                let t = all.take(i + 1);
                assert(t.drop_last() =~= all.take(i as int));
                assert(t.last() == names@[i as int]@);
                if i == 0 {
                    assert(t.len() == 1);
                    assert(out@ =~= start + comma_list(t));
                } else {
                    assert(out@ =~= start + comma_list(t));
                }
            }
            i = i + 1;
        }
        assert(all.take(i as int) =~= all);
        out.append("\n");
        return Outcome { output: Some(out), quit: false };
    }
    if equals(&command, "history") {
        let mut out = String::new();
        let mut i: usize = 0;
        let ghost entries = history@.map_values(|h: String| h@);
        while i < history.len()
            invariant
                i <= history@.len(),
                entries == history@.map_values(|h: String| h@),
                out@ == history_listing(entries, i as nat),
            decreases history@.len() - i,
        {
            let mut number = String::new();
            push_decimal(&mut number, i + 1);
            let digits = chars_of(number.as_str());
            let mut pad = digits.len();
            let ghost before = out@;
            let ghost mid = out@;
            while pad < 4
                invariant
                    digits@.len() <= pad <= 4 || (pad == digits@.len() && pad >= 4),
                    out@ == mid + Seq::new((pad - digits@.len()) as nat, |k: int| ' '),
                decreases 4 - pad,
            {
                let ghost o = out@;
                out.push(' ');
                proof {
                    assert(out@ =~= mid + Seq::new((pad + 1 - digits@.len()) as nat, |k: int| ' '));
                }
                pad = pad + 1;
            }
            out.append(number.as_str());
            out.append("  ");
            out.append(history[i].as_str());
            out.append("\n");
            proof {
                assert(entries[i as int] == history@[i as int]@);
                if digits@.len() < 4 {
                    assert(pad == 4);
                } else {
                    assert(Seq::new((pad - digits@.len()) as nat, |k: int| ' ') =~= Seq::<char>::empty());
                }
                assert(out@ =~= history_listing(entries, (i + 1) as nat));
            }
            i = i + 1;
        }
        return Outcome { output: Some(out), quit: false };
    }
    if equals(&command, "caps") {
        let mut out = String::from_str("raw mode: ");
        push_bool(&mut out, caps.raw_mode);
        out.append("\nansi: ");
        push_bool(&mut out, caps.ansi);
        out.append("\nresize events: ");
        push_bool(&mut out, caps.resize_events);
        out.append("\nsize: ");
        push_decimal(&mut out, size.cols as usize);
        out.append("x");
        push_decimal(&mut out, size.rows as usize);
        out.append("\n");
        proof {
            assert(out@ =~= caps_text(caps, size));
        }
        return Outcome { output: Some(out), quit: false };
    }
    let mut out = String::from_str("unknown command: ");
    out.append(string_of(command.as_slice()).as_str());
    out.append("\n");
    Outcome { output: Some(out), quit: false }
}

/// The line painted the way the demo highlights it: the command word green
/// when the demo knows it, red when it does not, and a line with no command
/// word left alone.
pub open spec fn highlight_spec(line: Seq<char>) -> Seq<char> {
    let start = leading_ws(line);
    let tail = line.skip(start as int);
    let word = match first_ws(tail) {
        Some(i) => tail.take(i as int),
        None => tail,
    };
    if word.len() == 0 {
        line
    } else {
        let colour = if demo_commands().contains(word) { Color::Green } else { Color::Red };
        line.take(start as int) + fg_spec(colour) + word + fg_spec(Color::Default) + line.skip((start + word.len()) as int)
    }
}

/// Highlighting adds nothing printable: stripping the escapes from a
/// highlighted escape-free line gives the line back, so the cursor, which
/// is measured against the line, stays where it belongs.
pub proof fn law_highlight_is_invisible(line: Seq<char>)
    requires
        escape_free(line),
    ensures
        strip_spec(highlight_spec(line)) == line,
{
    let start = leading_ws(line);
    let tail = line.skip(start as int);
    let word = match first_ws(tail) {
        Some(i) => tail.take(i as int),
        None => tail,
    };
    lemma_leading_ws_bound(line);
    lemma_first_ws_bound(tail);
    if word.len() == 0 {
        lemma_strip_plain(line, Seq::empty());
        assert(line + Seq::<char>::empty() =~= line);
        lemma_strip_empty();
    } else {
        let colour = if demo_commands().contains(word) { Color::Green } else { Color::Red };
        let a = line.take(start as int);
        let b = line.skip((start + word.len()) as int);
        assert(escape_free(a)) by {
            assert forall|i: int| 0 <= i < a.len() implies a[i] != '\x1b' by {
                assert(a[i] == line[i]);
            }
        }
        assert(escape_free(word)) by {
            assert forall|i: int| 0 <= i < word.len() implies word[i] != '\x1b' by {
                assert(word[i] == line[start + i]);
            }
        }
        assert(escape_free(b)) by {
            assert forall|i: int| 0 <= i < b.len() implies b[i] != '\x1b' by {
                assert(b[i] == line[start + word.len() + i]);
            }
        }
        let tail_part = fg_spec(Color::Default) + b;
        let mid = fg_spec(colour) + (word + tail_part);
        assert(highlight_spec(line) =~= a + mid);
        lemma_strip_plain(a, mid);
        lemma_strip_fg(colour, word + tail_part);
        lemma_strip_plain(word, tail_part);
        lemma_strip_fg(Color::Default, b);
        lemma_strip_plain(b, Seq::empty());
        lemma_strip_empty();
        assert(b + Seq::<char>::empty() =~= b);
        assert(a + (word + b) =~= line);
    }
}

proof fn lemma_strip_empty()
    ensures
        strip_spec(Seq::<char>::empty()) == Seq::<char>::empty(),
{
}

proof fn lemma_leading_ws_bound(s: Seq<char>)
    ensures
        leading_ws(s) <= s.len(),
    decreases s.len(),
{
    if s.len() > 0 && is_ws(s[0]) {
        lemma_leading_ws_bound(s.drop_first());
    }
}

proof fn lemma_first_ws_bound(s: Seq<char>)
    ensures
        first_ws(s) matches Some(i) ==> i < s.len(),
    decreases s.len(),
{
    if s.len() > 0 && !is_ws(s[0]) {
        lemma_first_ws_bound(s.drop_first());
    }
}

/// Paints the command word green when the demo knows it, red when it does
/// not: the whole of what a highlighter has to do.
#[derive(Clone, Copy, Debug, Default)]
pub struct CommandHighlighter;

impl Highlighter for CommandHighlighter {
    fn highlight<'l>(&self, line: &'l str) -> (r: Cow<'l, str>)
        ensures
            r@ == highlight_spec(line@),
    {
        proof {
            if escape_free(line@) {
                law_highlight_is_invisible(line@);
            }
        }
        let chars = chars_of(line);
        let n = chars.len();
        let mut start: usize = 0;
        assert(chars@.skip(0) =~= chars@);
        while start < n && is_whitespace(chars[start])
            invariant
                n == chars@.len(),
                start <= n,
                leading_ws(chars@) == start + leading_ws(chars@.skip(start as int)),
            decreases n - start,
        {
            assert(chars@.skip(start as int).drop_first() =~= chars@.skip(start + 1));
            start = start + 1;
        }
        proof {
            if start < n {
                assert(chars@.skip(start as int)[0] == chars@[start as int]);
            }
            assert(leading_ws(chars@.skip(start as int)) == 0);
        }
        let tail = crate::segment::skip_chars(&chars, start);
        let word = match first_ws_index(&tail) {
            Some(i) => crate::segment::take_chars(&tail, i),
            None => crate::segment::take_chars(&tail, tail.len()),
        };
        proof {
            assert(tail@.take(tail@.len() as int) =~= tail@);
        }
        if word.len() == 0 {
            return Cow::Borrowed(line);
        }
        let names = commands();
        let mut known = false;
        let mut k: usize = 0;
        let ghost all = names@.map_values(|c: &'static str| c@);
        while k < names.len()
            invariant
                k <= names@.len(),
                all == names@.map_values(|c: &'static str| c@),
                all == demo_commands(),
                known == exists|j: int| 0 <= j < k && all[j] == word@,
            decreases names@.len() - k,
        {
            assert(all[k as int] == names@[k as int]@);
            if equals(&word, names[k]) {
                known = true;
            }
            k = k + 1;
        }
        proof {
            if known {
                let j = choose|j: int| 0 <= j < k && all[j] == word@;
                assert(demo_commands().contains(word@));
            } else {
                assert(!demo_commands().contains(word@));
            }
        }
        let colour = if known { Color::Green } else { Color::Red };
        let end = start + word.len();
        let before = crate::segment::take_chars(&chars, start);
        let after = crate::segment::skip_chars(&chars, end);
        let mut out = string_of(before.as_slice());
        out.append(fg(colour));
        out.append(string_of(word.as_slice()).as_str());
        out.append(fg(Color::Default));
        out.append(string_of(after.as_slice()).as_str());
        proof {
            assert(tail@.skip(word@.len() as int) =~= chars@.skip(end as int));
            assert(out@ =~= highlight_spec(line@));
        }
        Cow::Owned(out)
    }
}

/// A word without whitespace followed by a space: the first whitespace is
/// that space.
proof fn lemma_first_ws_after_word(w: Seq<char>, rest: Seq<char>)
    requires
        forall|k: int| 0 <= k < w.len() ==> !is_ws(#[trigger] w[k]),
    ensures
        first_ws(w + seq![' '] + rest) == Some(w.len()),
        first_ws(w) is None,
    decreases w.len(),
{
    let s = w + seq![' '] + rest;
    if w.len() == 0 {
        assert(s[0] == ' ');
        assert(is_ws(' '));
    } else {
        let w1 = w.drop_first();
        assert forall|k: int| 0 <= k < w1.len() implies !is_ws(#[trigger] w1[k]) by {
            assert(w1[k] == w[k + 1]);
        }
        lemma_first_ws_after_word(w1, rest);
        assert(s.drop_first() =~= w1 + seq![' '] + rest);
        assert(s[0] == w[0]);
        assert(!is_ws(w[0]));
    }
}

/// Text with no whitespace at either end trims to itself.
proof fn lemma_trimmed(t: Seq<char>)
    requires
        t.len() > 0,
        !is_ws(t[0]),
        !is_ws(t.last()),
    ensures
        trim_spec(t) == t,
{
    assert(leading_ws(t) == 0);
    assert(t.skip(0) =~= t);
    assert(trailing_ws(t) == 0);
    assert(t.take(t.len() as int) =~= t);
}

/// `echo` prints back the text after it, whatever the text and whatever
/// else the session holds, and `exit` ends the session printing nothing.
pub proof fn law_echo_prints_its_text(t: Seq<char>, history: Seq<Seq<char>>, caps: Capabilities, size: Size)
    requires
        t.len() > 0,
        !is_ws(t[0]),
        !is_ws(t.last()),
    ensures
        dispatch_spec(seq!['e', 'c', 'h', 'o', ' '] + t, history, caps, size) == (Some(t + seq!['\n']), false),
        dispatch_spec(seq!['e', 'x', 'i', 't'], history, caps, size) == (None::<Seq<char>>, true),
{
    reveal_strlit("echo");
    reveal_strlit("exit");
    reveal_strlit("\n");
    let w = seq!['e', 'c', 'h', 'o'];
    let s = w + seq![' '] + t;
    assert(seq!['e', 'c', 'h', 'o', ' '] + t =~= s);
    assert forall|k: int| 0 <= k < w.len() implies !is_ws(#[trigger] w[k]) by {}
    lemma_first_ws_after_word(w, t);
    assert(s[0] == 'e');
    assert(s.last() == t.last());
    lemma_trimmed(s);
    lemma_trimmed(t);
    assert(s.take(4) =~= w);
    assert(s.skip(5) =~= t);
    assert(w =~= "echo"@);
    let x = seq!['e', 'x', 'i', 't'];
    assert forall|k: int| 0 <= k < x.len() implies !is_ws(#[trigger] x[k]) by {}
    lemma_first_ws_after_word(x, Seq::empty());
    lemma_trimmed(x);
    assert(x =~= "exit"@);
}

} // verus!
