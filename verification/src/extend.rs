//! The two places a host plugs its own behaviour in: completion and
//! highlighting.
//!
//! Both traits are synchronous and take `&self`: a completer that has to
//! await something should look it up before the keystroke, not during it.

use vstd::prelude::*;
use std::borrow::Cow;
use crate::text::{byte_offset, chars_of, floor_char, floor_char_index, is_ws, is_whitespace, utf8_len, string_of};
use crate::history::starts_with;
use crate::style::{escape_free, lemma_strip_plain, strip_spec};

verus! {

/// What could go where.
///
/// `start..end` is the byte range of the line the candidates would
/// replace, normally the token under the cursor. A range outside the line,
/// or off a char boundary, is clamped by the editor rather than trusted.
#[derive(Clone, PartialEq, Eq, Debug, Default)]
pub struct Completion {
    pub start: usize,
    pub end: usize,
    pub candidates: Vec<String>,
}

/// The number of leading chars `a` and `b` share.
pub open spec fn shared_len(a: Seq<char>, b: Seq<char>) -> nat
    decreases a.len(),
{
    if a.len() == 0 || b.len() == 0 || a[0] != b[0] {
        0
    } else {
        1 + shared_len(a.drop_first(), b.drop_first())
    }
}

/// The length of the prefix `first` shares with every one of `others`.
pub open spec fn common_len(first: Seq<char>, others: Seq<Seq<char>>) -> nat
    decreases others.len(),
{
    if others.len() == 0 {
        first.len()
    } else {
        let rest = common_len(first, others.drop_last());
        let here = shared_len(first, others.last());
        if here < rest { here } else { rest }
    }
}

/// The views of a list of strings.
pub open spec fn views(v: Seq<String>) -> Seq<Seq<char>> {
    v.map_values(|s: String| s@)
}

/// The longest prefix every candidate shares.
pub open spec fn common_prefix_spec(cands: Seq<Seq<char>>) -> Seq<char> {
    if cands.len() == 0 {
        Seq::empty()
    } else {
        cands[0].take(common_len(cands[0], cands.drop_first()) as int)
    }
}

pub proof fn lemma_shared_len(a: Seq<char>, b: Seq<char>)
    ensures
        shared_len(a, b) <= a.len(),
        shared_len(a, b) <= b.len(),
        forall|i: int| 0 <= i < shared_len(a, b) ==> a[i] == b[i],
        shared_len(a, b) < a.len() && shared_len(a, b) < b.len() ==> a[shared_len(a, b) as int] != b[shared_len(a, b) as int],
    decreases a.len(),
{
    if !(a.len() == 0 || b.len() == 0 || a[0] != b[0]) {
        lemma_shared_len(a.drop_first(), b.drop_first());
        let n = shared_len(a, b);
        assert forall|i: int| 0 <= i < n implies a[i] == b[i] by {
            if i > 0 {
                assert(a.drop_first()[i - 1] == a[i]);
                assert(b.drop_first()[i - 1] == b[i]);
            }
        }
    }
}

pub proof fn lemma_common_len(first: Seq<char>, others: Seq<Seq<char>>)
    ensures
        common_len(first, others) <= first.len(),
        forall|j: int| 0 <= j < others.len() ==> common_len(first, others) <= shared_len(first, #[trigger] others[j]),
        common_len(first, others) == first.len() || exists|j: int| 0 <= j < others.len() && common_len(first, others) == shared_len(first, #[trigger] others[j]),
    decreases others.len(),
{
    if others.len() > 0 {
        lemma_common_len(first, others.drop_last());
        lemma_shared_len(first, others.last());
        let rest = common_len(first, others.drop_last());
        let here = shared_len(first, others.last());
        assert forall|j: int| 0 <= j < others.len() implies common_len(first, others) <= shared_len(first, #[trigger] others[j]) by {
            if j < others.len() - 1 {
                assert(others.drop_last()[j] == others[j]);
            }
        }
        if here < rest {
            assert(common_len(first, others) == shared_len(first, others[others.len() - 1]));
        } else if rest < first.len() {
            let j = choose|j: int| 0 <= j < others.drop_last().len() && rest == shared_len(first, #[trigger] others.drop_last()[j]);
            assert(others.drop_last()[j] == others[j]);
        }
    }
}

/// The common prefix is a prefix of every candidate, and no longer one is:
/// either it is a whole candidate, or some candidate differs from the first
/// right after it.
pub proof fn law_common_prefix_is_longest(cands: Seq<Seq<char>>)
    requires
        cands.len() > 0,
    ensures
        forall|i: int| 0 <= i < cands.len() ==> starts_with(#[trigger] cands[i], common_prefix_spec(cands)),
        ({
            let n = common_prefix_spec(cands).len();
            exists|i: int| 0 <= i < cands.len() && (cands[i].len() == n || (n < cands[0].len() && (#[trigger] cands[i])[n as int] != cands[0][n as int]))
        }),
{
    let first = cands[0];
    let others = cands.drop_first();
    lemma_common_len(first, others);
    let n = common_len(first, others);
    let p = common_prefix_spec(cands);
    assert(p.len() == n);
    assert forall|i: int| 0 <= i < cands.len() implies starts_with(#[trigger] cands[i], p) by {
        if i == 0 {
            assert(first.take(n as int) =~= p);
        } else {
            assert(others[i - 1] == cands[i]);
            lemma_shared_len(first, cands[i]);
            assert(cands[i].take(n as int) =~= p);
        }
    }
    if n == first.len() {
        assert(cands[0].len() == n);
    } else {
        let j = choose|j: int| 0 <= j < others.len() && n == shared_len(first, #[trigger] others[j]);
        lemma_shared_len(first, others[j]);
        assert(others[j] == cands[j + 1]);
    }
}

impl Completion {
    /// Nothing to offer.
    pub fn none() -> (r: Self)
        ensures
            r.start == 0,
            r.end == 0,
            r.candidates@.len() == 0,
    {
        Completion { start: 0, end: 0, candidates: Vec::new() }
    }

    pub fn new(range: std::ops::Range<usize>, candidates: Vec<String>) -> (r: Self)
        ensures
            r.start == range.start,
            r.end == range.end,
            r.candidates == candidates,
    {
        Completion { start: range.start, end: range.end, candidates }
    }

    pub fn is_empty(&self) -> (r: bool)
        ensures
            r == (self.candidates@.len() == 0),
    {
        self.candidates.len() == 0
    }

    pub fn range(&self) -> (r: std::ops::Range<usize>)
        ensures
            r.start == self.start,
            r.end == self.end,
    {
        self.start..self.end
    }

    /// The longest prefix every candidate shares, on a char boundary.
    ///
    /// This is what Tab inserts when there is more than one candidate: as
    /// much as is unambiguous, then the list.
    pub fn common_prefix(&self) -> (r: String)
        ensures
            r@ == common_prefix_spec(views(self.candidates@)),
    {
        if self.candidates.len() == 0 {
            return String::new();
        }
        let first = chars_of(self.candidates[0].as_str());
        let mut length = first.len();
        let mut k: usize = 1;
        let ghost cands = views(self.candidates@);
        assert(cands.drop_first().take(0) =~= Seq::<Seq<char>>::empty());
        while k < self.candidates.len()
            invariant
                1 <= k <= self.candidates@.len(),
                cands == views(self.candidates@),
                first@ == cands[0],
                length == common_len(first@, cands.drop_first().take(k - 1)),
            decreases self.candidates@.len() - k,
        {
            let other = chars_of(self.candidates[k].as_str());
            let shared = shared_prefix(&first, &other);
            if shared < length {
                length = shared;
            }
            proof {
                let t = cands.drop_first().take(k as int);
                assert(t.drop_last() =~= cands.drop_first().take(k - 1));
                assert(t.last() == cands[k as int]);
            }
            k = k + 1;
        }
        proof {
            assert(cands.drop_first().take(k - 1) =~= cands.drop_first());
            lemma_common_len(first@, cands.drop_first());
        }
        let mut out: Vec<char> = Vec::new();
        let mut i: usize = 0;
        while i < length
            invariant
                length <= first@.len(),
                i <= length,
                out@ == first@.take(i as int),
            decreases length - i,
        {
            out.push(first[i]);
            i = i + 1;
            assert(out@ =~= first@.take(i as int));
        }
        string_of(out.as_slice())
    }
}

/// The number of leading chars `a` and `b` share.
fn shared_prefix(a: &Vec<char>, b: &Vec<char>) -> (r: usize)
    ensures
        r == shared_len(a@, b@),
{
    let mut i: usize = 0;
    assert(a@.skip(0) =~= a@);
    assert(b@.skip(0) =~= b@);
    while i < a.len() && i < b.len() && a[i] == b[i]
        invariant
            i <= a@.len(),
            i <= b@.len(),
            shared_len(a@, b@) == i + shared_len(a@.skip(i as int), b@.skip(i as int)),
        decreases a@.len() - i,
    {
        assert(a@.skip(i as int).drop_first() =~= a@.skip(i + 1));
        assert(b@.skip(i as int).drop_first() =~= b@.skip(i + 1));
        i = i + 1;
    }
    i
}

/// Answers "what could follow what has been typed".
pub trait Completer {
    /// Whether this completer may answer `r` for `line` with the cursor at
    /// byte `cursor`. A completer whose answers depend on more than its
    /// arguments (files on disk, say) may allow any.
    spec fn offers(&self, line: Seq<char>, cursor: usize, r: Completion) -> bool;

    fn complete(&self, line: &str, cursor: usize) -> (r: Completion)
        ensures
            self.offers(line@, cursor, r),
    ;
}

/// Offers nothing. The default.
#[derive(Clone, Copy, Debug, Default)]
pub struct NoCompleter;

impl Completer for NoCompleter {
    open spec fn offers(&self, line: Seq<char>, cursor: usize, r: Completion) -> bool {
        r.start == 0 && r.end == 0 && r.candidates@.len() == 0
    }

    fn complete(&self, line: &str, cursor: usize) -> (r: Completion)
        ensures
            r.start == 0 && r.end == 0 && r.candidates@.len() == 0,
    {
        Completion::none()
    }
}

/// Completes the whitespace-delimited token under the cursor from a fixed
/// list.
#[derive(Clone, Debug, Default)]
pub struct WordCompleter {
    words: Vec<String>,
}

/// The char index where the token ending at char index `cut` begins: just
/// after the last whitespace before it, or the start of the line.
pub open spec fn token_start(line: Seq<char>, cut: int) -> nat
    decreases cut,
{
    if cut <= 0 {
        0
    } else if is_ws(line[cut - 1]) {
        cut as nat
    } else {
        token_start(line, cut - 1)
    }
}

/// The words that begin with `token`, in order.
pub open spec fn matching(words: Seq<Seq<char>>, token: Seq<char>) -> Seq<Seq<char>>
    decreases words.len(),
{
    if words.len() == 0 {
        Seq::empty()
    } else if starts_with(words.last(), token) {
        matching(words.drop_last(), token).push(words.last())
    } else {
        matching(words.drop_last(), token)
    }
}

/// What a `WordCompleter` over `words` offers for `line` with the cursor at
/// byte `cursor`: the token runs from just after the last whitespace before
/// the cursor (floored to a char boundary) to the cursor, and the
/// candidates are the words that begin with it.
pub open spec fn word_completion(words: Seq<Seq<char>>, line: Seq<char>, cursor: int) -> (nat, nat, Seq<Seq<char>>) {
    let cut = floor_char(line, cursor);
    let start = token_start(line, cut as int);
    (utf8_len(line.take(start as int)), utf8_len(line.take(cut as int)), matching(words, line.subrange(start as int, cut as int)))
}

pub proof fn lemma_token_start_bound(line: Seq<char>, cut: int)
    ensures
        token_start(line, cut) <= if cut < 0 { 0 } else { cut },
    decreases cut,
{
    if cut > 0 && !is_ws(line[cut - 1]) {
        lemma_token_start_bound(line, cut - 1);
    }
}

/// Every candidate a `WordCompleter` offers begins with the token, and every
/// word that begins with it is offered.
pub proof fn law_candidates_extend_the_token(words: Seq<Seq<char>>, token: Seq<char>)
    ensures
        forall|i: int| 0 <= i < matching(words, token).len() ==> starts_with(#[trigger] matching(words, token)[i], token),
        forall|j: int| 0 <= j < words.len() && starts_with(#[trigger] words[j], token) ==> matching(words, token).contains(words[j]),
    decreases words.len(),
{
    if words.len() > 0 {
        law_candidates_extend_the_token(words.drop_last(), token);
        let prev = matching(words.drop_last(), token);
        assert forall|j: int| 0 <= j < words.len() && starts_with(#[trigger] words[j], token) implies matching(words, token).contains(words[j]) by {
            if j < words.len() - 1 {
                assert(words.drop_last()[j] == words[j]);
                let k = choose|k: int| 0 <= k < prev.len() && prev[k] == words[j];
                if starts_with(words.last(), token) {
                    assert(prev.push(words.last())[k] == words[j]);
                }
            } else {
                assert(matching(words, token).last() == words[j]);
            }
        }
    }
}

impl WordCompleter {
    pub fn new(words: &[&str]) -> (r: Self)
        ensures
            r.word_list() == words@.map_values(|w: &str| w@),
    {
        let mut out: Vec<String> = Vec::new();
        let mut i: usize = 0;
        while i < words.len()
            invariant
                i <= words@.len(),
                views(out@) == words@.take(i as int).map_values(|w: &str| w@),
            decreases words@.len() - i,
        {
            let ghost before = out@;
            let item = String::from_str(words[i]);
            out.push(item);
            proof {
                assert(out@ == before.push(item));
                assert(views(out@) =~= views(before).push(item@));
                assert(words@.take(i + 1) =~= words@.take(i as int).push(words@[i as int]));
            }
            i = i + 1;
            assert(views(out@) =~= words@.take(i as int).map_values(|w: &str| w@));
        }
        assert(words@.take(i as int) =~= words@);
        Self { words: out }
    }

    pub fn words(&self) -> (r: &[String])
        ensures
            views(r@) == self.word_list(),
    {
        self.words.as_slice()
    }

    /// The words as a value.
    pub closed spec fn word_list(&self) -> Seq<Seq<char>> {
        views(self.words@)
    }
}

impl Completer for WordCompleter {
    open spec fn offers(&self, line: Seq<char>, cursor: usize, r: Completion) -> bool {
        (r.start as nat, r.end as nat, views(r.candidates@)) == word_completion(self.word_list(), line, cursor as int)
    }

    fn complete(&self, line: &str, cursor: usize) -> (r: Completion)
        ensures
            (r.start as nat, r.end as nat, views(r.candidates@)) == word_completion(self.word_list(), line@, cursor as int),
    {
        let chars = chars_of(line);
        let cut = floor_char_index(chars.as_slice(), cursor);
        let mut start = cut;
        while start > 0 && !is_whitespace(chars[start - 1])
            invariant
                start <= cut <= chars@.len(),
                token_start(chars@, cut as int) == token_start(chars@, start as int),
            decreases start,
        {
            start = start - 1;
        }
        let mut token: Vec<char> = Vec::new();
        let mut i = start;
        while i < cut
            invariant
                start <= i <= cut <= chars@.len(),
                token@ == chars@.subrange(start as int, i as int),
            decreases cut - i,
        {
            token.push(chars[i]);
            i = i + 1;
            assert(token@ =~= chars@.subrange(start as int, i as int));
        }
        let mut candidates: Vec<String> = Vec::new();
        let mut k: usize = 0;
        let ghost words = views(self.words@);
        assert(words.take(0) =~= Seq::<Seq<char>>::empty());
        while k < self.words.len()
            invariant
                k <= self.words@.len(),
                words == views(self.words@),
                views(candidates@) == matching(words.take(k as int), token@),
            decreases self.words@.len() - k,
        {
            let word = chars_of(self.words[k].as_str());
            proof {
                let t = words.take(k + 1);
                assert(t.drop_last() =~= words.take(k as int));
                assert(t.last() == words[k as int]);
            }
            if starts_with_chars(&word, &token) {
                let ghost before = candidates@;
                candidates.push(string_of(word.as_slice()));
                assert(views(candidates@) =~= views(before).push(word@));
            }
            k = k + 1;
        }
        assert(words.take(k as int) =~= words);
        proof {
            crate::text::lemma_utf8_len_prefix_monotone(chars@, start as int, cut as int);
            lemma_floor_char_bytes(chars@, cursor as int);
        }
        let start_byte = byte_offset(chars.as_slice(), start);
        let end_byte = byte_offset(chars.as_slice(), cut);
        Completion::new(start_byte..end_byte, candidates)
    }
}

/// The bytes before `floor_char(s, b)` number at most `b`.
pub proof fn lemma_floor_char_bytes(s: Seq<char>, b: int)
    requires
        b >= 0,
    ensures
        utf8_len(s.take(floor_char(s, b) as int)) <= b,
    decreases s.len(),
{
    if s.len() > 0 && crate::text::utf8_width(s[0]) <= b {
        let w = crate::text::utf8_width(s[0]);
        lemma_floor_char_bytes(s.drop_first(), b - w);
        let k = floor_char(s.drop_first(), b - w);
        crate::text::lemma_floor_char_bound(s.drop_first(), b - w);
        let t = s.take((1 + k) as int);
        assert(t.drop_first() =~= s.drop_first().take(k as int));
        assert(t[0] == s[0]);
        assert(utf8_len(t) == w + utf8_len(t.drop_first()));
    } else {
        assert(s.take(0) =~= Seq::<char>::empty());
    }
}

/// Whether `s` begins with `p`.
fn starts_with_chars(s: &Vec<char>, p: &Vec<char>) -> (r: bool)
    ensures
        r == starts_with(s@, p@),
{
    if p.len() > s.len() {
        return false;
    }
    let mut i: usize = 0;
    while i < p.len()
        invariant
            p@.len() <= s@.len(),
            i <= p@.len(),
            forall|j: int| 0 <= j < i ==> s@[j] == p@[j],
        decreases p@.len() - i,
    {
        if s[i] != p[i] {
            assert(s@.take(p@.len() as int)[i as int] != p@[i as int]);
            return false;
        }
        i = i + 1;
    }
    assert(s@.take(p@.len() as int) =~= p@);
    true
}

/// Colours the line as it is typed.
///
/// An implementation returns the same printable characters with SGR escapes
/// added, and nothing else: the cursor is measured against the line the
/// editor holds.
pub trait Highlighter {
    /// The line as drawn: with escapes stripped, a line that holds none
    /// comes back as it was. Unless an implementation says otherwise, the
    /// line itself.
    fn highlight<'l>(&self, line: &'l str) -> (r: Cow<'l, str>)
        ensures
            escape_free(line@) ==> strip_spec(r@) == line@,
        default_ensures
            r@ == line@,
    {
        proof {
            if escape_free(line@) {
                lemma_strip_plain(line@, Seq::empty());
                assert(line@ + Seq::<char>::empty() =~= line@);
                assert(strip_spec(Seq::<char>::empty()) =~= Seq::<char>::empty());
            }
        }
        Cow::Borrowed(line)
    }

    /// The prompt as drawn: the same printable text as the prompt, escapes
    /// aside. Unless an implementation says otherwise, the prompt itself.
    fn highlight_prompt<'p>(&self, prompt: &'p str) -> (r: Cow<'p, str>)
        ensures
            strip_spec(r@) == strip_spec(prompt@),
        default_ensures
            r@ == prompt@,
    {
        Cow::Borrowed(prompt)
    }
}

/// Leaves the line alone. The default.
#[derive(Clone, Copy, Debug, Default)]
pub struct NoHighlighter;

impl Highlighter for NoHighlighter {}

/// The token ends at `cut` and starts just after the last whitespace
/// before it (or at the start of the line); none of it is whitespace.
pub proof fn lemma_token_start_is_after_space(line: Seq<char>, cut: int)
    requires
        0 <= cut <= line.len(),
    ensures
        token_start(line, cut) <= cut,
        forall|j: int| token_start(line, cut) <= j < cut ==> !is_ws(#[trigger] line[j]),
        token_start(line, cut) > 0 ==> is_ws(line[token_start(line, cut) - 1]),
    decreases cut,
{
    if cut > 0 && !is_ws(line[cut - 1]) {
        lemma_token_start_is_after_space(line, cut - 1);
    }
}

/// A `WordCompleter`'s range in bytes: it ends at the last char boundary at
/// or before the cursor, and starts just past the last whitespace char
/// before that (or at 0); no whitespace lies inside it, and the candidates
/// are the words that begin with it, in order.
pub proof fn law_completion_range_in_bytes(words: Seq<Seq<char>>, line: Seq<char>, cursor: int)
    requires
        cursor >= 0,
    ensures
        ({
            let (start_byte, end_byte, cands) = word_completion(words, line, cursor);
            let cut = floor_char(line, cursor) as int;
            let start = token_start(line, cut) as int;
            &&& end_byte == utf8_len(line.take(cut))
            &&& end_byte <= cursor
            &&& cut < line.len() ==> utf8_len(line.take(cut + 1)) > cursor
            &&& start_byte == utf8_len(line.take(start))
            &&& 0 <= start <= cut <= line.len()
            &&& forall|j: int| start <= j < cut ==> !is_ws(#[trigger] line[j])
            &&& start > 0 ==> is_ws(line[start - 1])
            &&& cands == matching(words, line.subrange(start, cut))
        }),
{
    crate::text::lemma_floor_char_is_last_boundary(line, cursor);
    lemma_token_start_is_after_space(line, floor_char(line, cursor) as int);
}

} // verus!
