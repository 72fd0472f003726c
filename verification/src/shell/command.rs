//! What the shell can be asked, what it answers, and how a typed line
//! becomes a command.

use vstd::prelude::*;
use crate::text::{chars_of, is_ws, is_whitespace, string_of};

verus! {

/// A request to the command processor.
#[derive(Debug, Clone)]
pub enum Command {
    Echo { text: String },
    DelayedEcho { text: String, delay_secs: u64 },
    Status,
    Exit,
    Unknown(String),
}

/// A [`Command`] as a value.
pub enum CommandView {
    Echo(Seq<char>),
    DelayedEcho(Seq<char>, u64),
    Status,
    Exit,
    Unknown(Seq<char>),
}

impl View for Command {
    type V = CommandView;

    open spec fn view(&self) -> CommandView {
        match self {
            Command::Echo { text } => CommandView::Echo(text@),
            Command::DelayedEcho { text, delay_secs } => CommandView::DelayedEcho(text@, *delay_secs),
            Command::Status => CommandView::Status,
            Command::Exit => CommandView::Exit,
            Command::Unknown(line) => CommandView::Unknown(line@),
        }
    }
}

/// What the processor reports.
#[derive(Debug, Clone)]
pub struct StatusInfo {
    pub uptime_secs: u64,
    pub commands_processed: u64,
    pub platform: String,
    pub timestamp: u64,
}

/// The processor's answer to a command.
#[derive(Debug, Clone)]
pub enum Response {
    Output(String),
    Status(StatusInfo),
    Error(String),
    Exit(String),
}

/// A [`StatusInfo`] as a value.
pub struct StatusView {
    pub uptime_secs: u64,
    pub commands_processed: u64,
    pub platform: Seq<char>,
    pub timestamp: u64,
}

/// A [`Response`] as a value.
pub enum ResponseView {
    Output(Seq<char>),
    Status(StatusView),
    Error(Seq<char>),
    Exit(Seq<char>),
}

impl View for StatusInfo {
    type V = StatusView;

    open spec fn view(&self) -> StatusView {
        StatusView {
            uptime_secs: self.uptime_secs,
            commands_processed: self.commands_processed,
            platform: self.platform@,
            timestamp: self.timestamp,
        }
    }
}

impl View for Response {
    type V = ResponseView;

    open spec fn view(&self) -> ResponseView {
        match self {
            Response::Output(s) => ResponseView::Output(s@),
            Response::Status(info) => ResponseView::Status(info@),
            Response::Error(s) => ResponseView::Error(s@),
            Response::Exit(s) => ResponseView::Exit(s@),
        }
    }
}

/// The whitespace-separated words of `s`, scanning from `cur` (the word in
/// progress) and `acc` (the words finished so far).
pub open spec fn words_from(s: Seq<char>, cur: Seq<char>, acc: Seq<Seq<char>>) -> Seq<Seq<char>>
    decreases s.len(),
{
    if s.len() == 0 {
        if cur.len() > 0 { acc.push(cur) } else { acc }
    } else if is_ws(s[0]) {
        words_from(s.drop_first(), Seq::empty(), if cur.len() > 0 { acc.push(cur) } else { acc })
    } else {
        words_from(s.drop_first(), cur.push(s[0]), acc)
    }
}

/// The whitespace-separated words of `s`, as `str::split_whitespace`
/// gives them.
pub open spec fn words(s: Seq<char>) -> Seq<Seq<char>> {
    words_from(s, Seq::empty(), Seq::empty())
}

/// `parts` joined with single spaces, as `[&str]::join(" ")` gives them.
pub open spec fn joined_words(parts: Seq<Seq<char>>) -> Seq<char>
    decreases parts.len(),
{
    if parts.len() == 0 {
        Seq::empty()
    } else if parts.len() == 1 {
        parts[0]
    } else {
        joined_words(parts.drop_last()) + seq![' '] + parts.last()
    }
}

/// The value of a run of decimal digits.
pub open spec fn digits_value(d: Seq<char>) -> nat
    decreases d.len(),
{
    if d.len() == 0 {
        0
    } else {
        digits_value(d.drop_last()) * 10 + ((d.last() as u32) - ('0' as u32)) as nat
    }
}

/// `s` without a leading `+`.
pub open spec fn unsigned_part(s: Seq<char>) -> Seq<char> {
    if s.len() > 0 && s[0] == '+' { s.drop_first() } else { s }
}

/// Whether every char of `d` is a decimal digit.
pub open spec fn all_digits(d: Seq<char>) -> bool {
    forall|i: int| 0 <= i < d.len() ==> '0' <= #[trigger] d[i] <= '9'
}

/// What `str::parse::<u64>` gives for `s`: an optional `+`, then at least
/// one decimal digit and nothing else, with a value that fits.
pub open spec fn parse_u64_spec(s: Seq<char>) -> Option<u64> {
    let d = unsigned_part(s);
    if d.len() > 0 && all_digits(d) && digits_value(d) <= u64::MAX {
        Some(digits_value(d) as u64)
    } else {
        None
    }
}

/// The line as a command: `echo` and `decho` take the words after them
/// (`decho`'s last one is its delay in seconds, and a delay that does not
/// parse makes no command), `status` and `exit` take nothing, and a blank
/// line is no command. Anything else is `unknown`'s to say.
pub open spec fn command_of(parts: Seq<Seq<char>>, unknown: Option<CommandView>) -> Option<CommandView> {
    if parts.len() == 0 {
        None
    } else if parts[0] == seq!['e', 'c', 'h', 'o'] {
        Some(CommandView::Echo(joined_words(parts.drop_first())))
    } else if parts[0] == seq!['d', 'e', 'c', 'h', 'o'] {
        match parse_u64_spec(parts.last()) {
            Some(secs) => Some(CommandView::DelayedEcho(joined_words(parts.subrange(1, parts.len() - 1)), secs)),
            None => None,
        }
    } else if parts[0] == seq!['s', 't', 'a', 't', 'u', 's'] {
        Some(CommandView::Status)
    } else if parts[0] == seq!['e', 'x', 'i', 't'] {
        Some(CommandView::Exit)
    } else {
        unknown
    }
}

/// What the line shell makes of a typed line: an unrecognised word is an
/// unknown command, carrying the line as typed.
pub open spec fn parse_line_spec(line: Seq<char>) -> Option<CommandView> {
    command_of(words(line), Some(CommandView::Unknown(line)))
}

/// What the full-screen shell makes of a typed line: an unrecognised word
/// is no command at all.
pub open spec fn parse_screen_spec(line: Seq<char>) -> Option<CommandView> {
    command_of(words(line), None)
}

/// The whitespace-separated words of `s`.
pub fn split_words(s: &str) -> (r: Vec<Vec<char>>)
    ensures
        r@.map_values(|w: Vec<char>| w@) == words(s@),
{
    let chars = chars_of(s);
    let mut acc: Vec<Vec<char>> = Vec::new();
    let mut cur: Vec<char> = Vec::new();
    let mut i: usize = 0;
    assert(chars@.skip(0) =~= chars@);
    assert(acc@.map_values(|w: Vec<char>| w@) =~= Seq::<Seq<char>>::empty());
    while i < chars.len()
        invariant
            i <= chars@.len(),
            chars@ == s@,
            words_from(chars@.skip(i as int), cur@, acc@.map_values(|w: Vec<char>| w@)) == words(s@),
        decreases chars@.len() - i,
    {
        let c = chars[i];
        let ghost rest = chars@.skip(i as int);
        assert(rest[0] == c);
        assert(rest.drop_first() =~= chars@.skip(i + 1));
        if is_whitespace(c) {
            if cur.len() > 0 {
                let ghost before = acc@;
                let mut word: Vec<char> = Vec::new();
                std::mem::swap(&mut word, &mut cur);
                acc.push(word);
                proof {
                    assert(acc@.map_values(|w: Vec<char>| w@) =~= before.map_values(|w: Vec<char>| w@).push(word@));
                    assert(cur@ =~= Seq::<char>::empty());
                }
            } else {
                assert(cur@ =~= Seq::<char>::empty());
            }
        } else {
            cur.push(c);
        }
        i = i + 1;
    }
    assert(chars@.skip(i as int) =~= Seq::<char>::empty());
    if cur.len() > 0 {
        let ghost before = acc@;
        acc.push(cur);
        proof {
            assert(acc@.map_values(|w: Vec<char>| w@) =~= before.map_values(|w: Vec<char>| w@).push(cur@));
        }
    }
    acc
}

/// `parts[from..to]` joined with single spaces.
fn join_words(parts: &Vec<Vec<char>>, from: usize, to: usize) -> (r: String)
    requires
        from <= to <= parts@.len(),
    ensures
        r@ == joined_words(parts@.map_values(|w: Vec<char>| w@).subrange(from as int, to as int)),
{
    let ghost ws = parts@.map_values(|w: Vec<char>| w@);
    let mut out: Vec<char> = Vec::new();
    let mut i = from;
    assert(ws.subrange(from as int, from as int) =~= Seq::<Seq<char>>::empty());
    while i < to
        invariant
            from <= i <= to <= parts@.len(),
            ws == parts@.map_values(|w: Vec<char>| w@),
            out@ == joined_words(ws.subrange(from as int, i as int)),
        decreases to - i,
    {
        let ghost before = out@;
        if i > from {
            out.push(' ');
        }
        let word = &parts[i];
        let mut k: usize = 0;
        let ghost mid = out@;
        while k < word.len()
            invariant
                k <= word@.len(),
                out@ == mid + word@.take(k as int),
            decreases word@.len() - k,
        {
            out.push(word[k]);
            k = k + 1;
            assert(out@ =~= mid + word@.take(k as int));
        }
        proof {
            assert(word@.take(k as int) =~= word@);
            assert(ws[i as int] == word@);
            let sub = ws.subrange(from as int, i + 1);
            assert(sub.drop_last() =~= ws.subrange(from as int, i as int));
            assert(sub.last() == word@);
            if i > from {
                assert(out@ =~= before + seq![' '] + word@);
            } else {
                assert(sub.len() == 1);
                assert(out@ =~= word@);
            }
        }
        i = i + 1;
    }
    string_of(out.as_slice())
}

/// Whether `w` is the word `name`.
fn is_word(w: &Vec<char>, name: &str) -> (r: bool)
    ensures
        r == (w@ == name@),
{
    let n = chars_of(name);
    if w.len() != n.len() {
        return false;
    }
    let mut i: usize = 0;
    while i < w.len()
        invariant
            w@.len() == n@.len(),
            n@ == name@,
            i <= w@.len(),
            forall|j: int| 0 <= j < i ==> w@[j] == n@[j],
        decreases w@.len() - i,
    {
        if w[i] != n[i] {
            return false;
        }
        i = i + 1;
    }
    assert(w@ =~= n@);
    true
}

/// The number a word spells, as `str::parse::<u64>` reads it.
pub fn parse_u64(s: &Vec<char>) -> (r: Option<u64>)
    ensures
        r == parse_u64_spec(s@),
{
    let start: usize = if s.len() > 0 && s[0] == '+' { 1 } else { 0 };
    let ghost d = if s@.len() > 0 && s@[0] == '+' { s@.drop_first() } else { s@ };
    assert(d =~= s@.skip(start as int));
    if start >= s.len() {
        return None;
    }
    let mut value: u64 = 0;
    let mut i = start;
    assert(d.take(0) =~= Seq::<char>::empty());
    while i < s.len()
        invariant
            start <= i <= s@.len(),
            d == s@.skip(start as int),
            d == unsigned_part(s@),
            forall|j: int| 0 <= j < i - start ==> '0' <= #[trigger] d[j] <= '9',
            value == digits_value(d.take(i - start)),
        decreases s@.len() - i,
    {
        let c = s[i];
        if !('0' <= c && c <= '9') {
            assert(d[i - start] == c);
            assert(!all_digits(d));
            return None;
        }
        let digit = (c as u32 - '0' as u32) as u64;
        proof {
            let t = d.take(i + 1 - start);
            assert(t.drop_last() =~= d.take(i - start));
            assert(t.last() == c);
        }
        if value > (u64::MAX - digit) / 10 {
            proof {
                let m = (u64::MAX - digit) / 10;
                assert(value * 10 + digit > u64::MAX) by (nonlinear_arith)
                    requires
                        value > m,
                        m == (u64::MAX - digit) / 10,
                        digit <= 9,
                ;
                if all_digits(d) {
                    lemma_digits_prefix(d, (i + 1 - start) as nat);
                }
            }
            return None;
        }
        value = value * 10 + digit;
        i = i + 1;
    }
    assert(d.take(i - start) =~= d);
    Some(value)
}

/// A run of digits is worth at least as much as any prefix of it.
proof fn lemma_digits_prefix(d: Seq<char>, n: nat)
    requires
        n <= d.len(),
    ensures
        digits_value(d.take(n as int)) <= digits_value(d),
    decreases d.len(),
{
    if n == d.len() {
        assert(d.take(n as int) =~= d);
    } else {
        lemma_digits_prefix(d.drop_last(), n);
        assert(d.drop_last().take(n as int) =~= d.take(n as int));
    }
}

/// The command a line means, with `unknown` for an unrecognised word.
fn parse_with(line: &str, unknown: Option<Command>) -> (r: Option<Command>)
    ensures
        match r {
            Some(c) => command_of(words(line@), match unknown { Some(u) => Some(u@), None => None }) == Some(c@),
            None => command_of(words(line@), match unknown { Some(u) => Some(u@), None => None }) is None,
        },
{
    let parts = split_words(line);
    let ghost ws = parts@.map_values(|w: Vec<char>| w@);
    let n = parts.len();
    let ghost u = match unknown { Some(ref x) => Some(x@), None => None };
    if n == 0 {
        assert(command_of(ws, u) is None);
        return None;
    }
    proof {
        reveal_strlit("echo");
        reveal_strlit("decho");
        reveal_strlit("status");
        reveal_strlit("exit");
        assert("echo"@ =~= seq!['e', 'c', 'h', 'o']);
        assert("decho"@ =~= seq!['d', 'e', 'c', 'h', 'o']);
        assert("status"@ =~= seq!['s', 't', 'a', 't', 'u', 's']);
        assert("exit"@ =~= seq!['e', 'x', 'i', 't']);
        assert(ws[0] == parts@[0]@);
        assert(ws.last() == parts@[n - 1]@);
        assert(ws.drop_first() =~= ws.subrange(1, n as int));
    }
    if is_word(&parts[0], "echo") {
        assert(ws[0] == seq!['e', 'c', 'h', 'o']);
        Some(Command::Echo { text: join_words(&parts, 1, n) })
    } else if is_word(&parts[0], "decho") {
        if n < 2 {
            proof {
                assert(ws.last()[0] == 'd');
                assert(unsigned_part(ws.last()) == ws.last());
                assert(!all_digits(ws.last()));
                assert(parse_u64_spec(ws.last()) is None);
                assert(ws[0] == seq!['d', 'e', 'c', 'h', 'o']);
                assert(ws[0] != seq!['e', 'c', 'h', 'o']);
                assert(command_of(ws, u) is None);
            }
            return None;
        }
        match parse_u64(&parts[n - 1]) {
            Some(secs) => {
                assert(ws[0] == seq!['d', 'e', 'c', 'h', 'o']);
                assert(ws[0] != seq!['e', 'c', 'h', 'o']);
                let text = join_words(&parts, 1, n - 1);
                Some(Command::DelayedEcho { text, delay_secs: secs })
            },
            None => {
                assert(ws[0] == seq!['d', 'e', 'c', 'h', 'o']);
                assert(ws[0] != seq!['e', 'c', 'h', 'o']);
                assert(parse_u64_spec(ws.last()) is None);
                assert(command_of(ws, u) is None);
                None
            },
        }
    } else if is_word(&parts[0], "status") {
        assert(ws[0] == seq!['s', 't', 'a', 't', 'u', 's']);
        Some(Command::Status)
    } else if is_word(&parts[0], "exit") {
        assert(ws[0] == seq!['e', 'x', 'i', 't']);
        assert(ws[0] != seq!['e', 'c', 'h', 'o']);
        assert(ws[0] != seq!['d', 'e', 'c', 'h', 'o']);
        assert(ws[0] != seq!['s', 't', 'a', 't', 'u', 's']);
        Some(Command::Exit)
    } else {
        assert(ws[0] != seq!['e', 'c', 'h', 'o']);
        assert(ws[0] != seq!['d', 'e', 'c', 'h', 'o']);
        assert(ws[0] != seq!['s', 't', 'a', 't', 'u', 's']);
        assert(ws[0] != seq!['e', 'x', 'i', 't']);
        unknown
    }
}

/// The command the line shell runs for a typed line: `None` for a blank
/// line or a `decho` whose delay does not parse, an unknown command with
/// the line as typed for an unrecognised word.
pub fn parse_command(line: &str) -> (r: Option<Command>)
    ensures
        match r {
            Some(c) => parse_line_spec(line@) == Some(c@),
            None => parse_line_spec(line@) is None,
        },
{
    let unknown = Command::Unknown(String::from_str(line));
    parse_with(line, Some(unknown))
}

/// The command the full-screen shell runs for a typed line: as
/// [`parse_command`], but an unrecognised word is no command.
pub fn parse_screen_command(line: &str) -> (r: Option<Command>)
    ensures
        match r {
            Some(c) => parse_screen_spec(line@) == Some(c@),
            None => parse_screen_spec(line@) is None,
        },
{
    parse_with(line, None)
}

/// What a line's first word commands, whatever follows it and whatever an
/// unknown word would give: `echo` echoes the remaining words joined by
/// single spaces, `status` asks for the status, `exit` exits; and `decho`
/// with a number last echoes the words between after that many seconds.
pub proof fn law_command_words(rest: Seq<Seq<char>>, unknown: Option<CommandView>, secs_word: Seq<char>)
    ensures
        command_of(seq![seq!['e', 'c', 'h', 'o']] + rest, unknown) == Some(CommandView::Echo(joined_words(rest))),
        command_of(seq![seq!['s', 't', 'a', 't', 'u', 's']] + rest, unknown) == Some(CommandView::Status),
        command_of(seq![seq!['e', 'x', 'i', 't']] + rest, unknown) == Some(CommandView::Exit),
        parse_u64_spec(secs_word) matches Some(n) ==>
            command_of(seq![seq!['d', 'e', 'c', 'h', 'o']] + rest + seq![secs_word], unknown)
                == Some(CommandView::DelayedEcho(joined_words(rest), n)),
{
    assert((seq![seq!['e', 'c', 'h', 'o']] + rest).drop_first() =~= rest);
    let d = seq![seq!['d', 'e', 'c', 'h', 'o']] + rest + seq![secs_word];
    assert(d.subrange(1, d.len() - 1) =~= rest);
    assert(seq!['d', 'e', 'c', 'h', 'o'] != seq!['e', 'c', 'h', 'o']) by {
        assert(seq!['d', 'e', 'c', 'h', 'o'].len() != seq!['e', 'c', 'h', 'o'].len());
    }
    assert(seq!['s', 't', 'a', 't', 'u', 's'] != seq!['e', 'c', 'h', 'o']) by {
        assert(seq!['s', 't', 'a', 't', 'u', 's'].len() != seq!['e', 'c', 'h', 'o'].len());
    }
    assert(seq!['s', 't', 'a', 't', 'u', 's'] != seq!['d', 'e', 'c', 'h', 'o']) by {
        assert(seq!['s', 't', 'a', 't', 'u', 's'].len() != seq!['d', 'e', 'c', 'h', 'o'].len());
    }
    assert(seq!['e', 'x', 'i', 't'] != seq!['e', 'c', 'h', 'o']) by {
        assert(seq!['e', 'x', 'i', 't'][1] != seq!['e', 'c', 'h', 'o'][1]);
    }
    assert(seq!['e', 'x', 'i', 't'] != seq!['d', 'e', 'c', 'h', 'o']) by {
        assert(seq!['e', 'x', 'i', 't'].len() != seq!['d', 'e', 'c', 'h', 'o'].len());
    }
    assert(seq!['e', 'x', 'i', 't'] != seq!['s', 't', 'a', 't', 'u', 's']) by {
        assert(seq!['e', 'x', 'i', 't'].len() != seq!['s', 't', 'a', 't', 'u', 's'].len());
    }
}

} // verus!
