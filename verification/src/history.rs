//! Command history: recording, walking, and the wire format it persists in.
//!
//! With prefix search on (the default), Up walks only the entries starting
//! with what is already left of the cursor. The wire format is entries
//! separated by newlines, oldest first, UTF-8.

use vstd::prelude::*;
use vstd::utf8::{decode_utf8, encode_scalar, encode_utf8, valid_utf8};
use crate::text::{chars_of, floor_char, is_blank, all_whitespace, string_of, floor_char_index, lemma_floor_char_bound};

verus! {

pub const DEFAULT_LIMIT: usize = 1000;

/// Recorded lines, newest last, plus the cursor a session walks them with.
#[derive(Clone, Debug)]
pub struct History {
    entries: Vec<Vec<char>>,
    limit: usize,
    dedup_adjacent: bool,
    ignore_leading_space: bool,
    prefix_search: bool,
    // Navigation state: `pos` is None when the editor shows the line the
    // human is typing rather than a recalled one.
    pos: Option<usize>,
    draft: Vec<char>,
    prefix: Vec<char>,
}

/// A history as a value.
pub struct HistoryView {
    pub entries: Seq<Seq<char>>,
    pub limit: nat,
    pub dedup_adjacent: bool,
    pub ignore_leading_space: bool,
    pub prefix_search: bool,
    pub pos: Option<nat>,
    pub draft: Seq<char>,
    pub prefix: Seq<char>,
}

/// Whether `s` begins with `p`.
pub open spec fn starts_with(s: Seq<char>, p: Seq<char>) -> bool {
    p.len() <= s.len() && s.take(p.len() as int) == p
}

/// The newest entry before index `end` that starts with `p`.
pub open spec fn match_before(entries: Seq<Seq<char>>, p: Seq<char>, end: int) -> Option<nat>
    decreases end,
{
    if end <= 0 {
        None
    } else if starts_with(entries[end - 1], p) {
        Some((end - 1) as nat)
    } else {
        match_before(entries, p, end - 1)
    }
}

/// The oldest entry at or after index `start` that starts with `p`.
pub open spec fn match_from(entries: Seq<Seq<char>>, p: Seq<char>, start: int) -> Option<nat>
    decreases entries.len() - start,
{
    if start >= entries.len() || start < 0 {
        None
    } else if starts_with(entries[start], p) {
        Some(start as nat)
    } else {
        match_from(entries, p, start + 1)
    }
}

/// The history with the walk forgotten.
pub open spec fn idle(h: HistoryView) -> HistoryView {
    HistoryView { pos: None, draft: Seq::empty(), prefix: Seq::empty(), ..h }
}

/// The newest `limit` entries of `entries`.
pub open spec fn newest(entries: Seq<Seq<char>>, limit: nat) -> Seq<Seq<char>> {
    if entries.len() > limit {
        entries.skip(entries.len() - limit)
    } else {
        entries
    }
}

/// Dropping the oldest entries down to the limit, which ends any walk.
pub open spec fn trimmed(h: HistoryView) -> HistoryView {
    let h2 = HistoryView { entries: newest(h.entries, h.limit), ..h };
    if h.pos is Some {
        idle(h2)
    } else {
        h2
    }
}

/// What an entry may be: one line, not blank.
pub open spec fn is_entry(e: Seq<char>) -> bool {
    !is_blank(e) && !e.contains('\n')
}

/// Whether `push` records `line`, given the history it is pushed to. A line
/// holding a newline is never recorded: an entry is one line of the wire
/// format.
pub open spec fn records(h: HistoryView, line: Seq<char>) -> bool {
    &&& h.limit != 0
    &&& !is_blank(line)
    &&& !line.contains('\n')
    &&& !(h.ignore_leading_space && line.len() > 0 && line[0] == ' ')
    &&& !(h.dedup_adjacent && h.entries.len() > 0 && h.entries.last() == line)
}

/// What `push` does.
pub open spec fn push_spec(h: HistoryView, line: Seq<char>) -> HistoryView {
    let h1 = idle(h);
    if records(h1, line) {
        trimmed(HistoryView { entries: h1.entries.push(line), ..h1 })
    } else {
        h1
    }
}

/// The walk as it stands before `older` searches: a fresh walk captures the
/// draft and, with prefix search on, its first `cut` chars as the prefix.
pub open spec fn walk_start(h: HistoryView, current: Seq<char>, cut: int) -> HistoryView {
    if h.pos is None {
        HistoryView {
            draft: current,
            prefix: if h.prefix_search {
                current.take(cut)
            } else {
                Seq::empty()
            },
            ..h
        }
    } else {
        h
    }
}

/// What `older` does when the prefix is cut after `cut` chars: the history
/// after, and the entry recalled.
pub open spec fn older_at_spec(h: HistoryView, current: Seq<char>, cut: int) -> (HistoryView, Option<Seq<char>>) {
    let h1 = walk_start(h, current, cut);
    let end: int = match h1.pos {
        Some(p) => p as int,
        None => h1.entries.len() as int,
    };
    match match_before(h1.entries, h1.prefix, end) {
        Some(i) => (HistoryView { pos: Some(i), ..h1 }, Some(h1.entries[i as int])),
        None => (h1, None),
    }
}

/// What `older` does: the prefix is what lies left of the byte `cursor`,
/// floored to a char boundary.
pub open spec fn older_spec(h: HistoryView, current: Seq<char>, cursor: int) -> (HistoryView, Option<Seq<char>>) {
    older_at_spec(h, current, floor_char(current, cursor) as int)
}

/// What `newer` does: the history after, and the entry (or the draft) it
/// hands back.
pub open spec fn newer_spec(h: HistoryView) -> (HistoryView, Option<Seq<char>>) {
    match h.pos {
        None => (h, None),
        Some(p) => match match_from(h.entries, h.prefix, p + 1int) {
            Some(i) => (HistoryView { pos: Some(i), ..h }, Some(h.entries[i as int])),
            None => (HistoryView { pos: None, prefix: Seq::empty(), draft: Seq::empty(), ..h }, Some(h.draft)),
        },
    }
}

/// The wire format: each entry's UTF-8 followed by a newline.
pub open spec fn encode_entries(entries: Seq<Seq<char>>) -> Seq<u8>
    decreases entries.len(),
{
    if entries.len() == 0 {
        Seq::empty()
    } else {
        encode_entries(entries.drop_last()) + encode_utf8(entries.last()) + seq![10u8]
    }
}

/// `s` without one trailing carriage return.
pub open spec fn strip_cr(s: Seq<char>) -> Seq<char> {
    if s.len() > 0 && s.last() == '\r' {
        s.drop_last()
    } else {
        s
    }
}

/// `s` cut at its newlines: the finished lines, each without its line
/// ending, and the text after the last newline.
pub open spec fn split_lines(s: Seq<char>) -> (Seq<Seq<char>>, Seq<char>)
    decreases s.len(),
{
    if s.len() == 0 {
        (Seq::empty(), Seq::empty())
    } else {
        let (done, cur) = split_lines(s.drop_last());
        if s.last() == '\n' {
            (done.push(strip_cr(cur)), Seq::empty())
        } else {
            (done, cur.push(s.last()))
        }
    }
}

/// The lines of `s`, as `str::lines` gives them.
pub open spec fn lines(s: Seq<char>) -> Seq<Seq<char>> {
    let (done, cur) = split_lines(s);
    if cur.len() > 0 {
        done.push(cur)
    } else {
        done
    }
}

/// `ls` without its blank lines.
pub open spec fn nonblank(ls: Seq<Seq<char>>) -> Seq<Seq<char>>
    decreases ls.len(),
{
    if ls.len() == 0 {
        Seq::empty()
    } else if is_blank(ls.last()) {
        nonblank(ls.drop_last())
    } else {
        nonblank(ls.drop_last()).push(ls.last())
    }
}

/// The entries a text holds: its non-blank lines.
pub open spec fn entries_of(text: Seq<char>) -> Seq<Seq<char>> {
    nonblank(lines(text))
}

/// What `String::from_utf8_lossy` makes of `bytes`: the decoded text, with
/// each invalid sequence replaced by U+FFFD.
pub uninterp spec fn utf8_lossy(bytes: Seq<u8>) -> Seq<char>;

/// Decodes `bytes` with `String::from_utf8_lossy`. Valid UTF-8 comes back
/// as the text it encodes, as that function's documentation says; the
/// replacement of invalid sequences is left to the name `utf8_lossy`.
#[verifier::external_body]
fn decode_lossy(bytes: &[u8]) -> (r: String)
    ensures
        r@ == utf8_lossy(bytes@),
        valid_utf8(bytes@) ==> r@ == decode_utf8(bytes@),
{
    String::from_utf8_lossy(bytes).into_owned()
}

impl View for History {
    type V = HistoryView;

    closed spec fn view(&self) -> HistoryView {
        HistoryView {
            entries: self.entries@.map_values(|e: Vec<char>| e@),
            limit: self.limit as nat,
            dedup_adjacent: self.dedup_adjacent,
            ignore_leading_space: self.ignore_leading_space,
            prefix_search: self.prefix_search,
            pos: match self.pos {
                Some(p) => Some(p as nat),
                None => None,
            },
            draft: self.draft@,
            prefix: self.prefix@,
        }
    }
}

/// A consistent history: within its limit, every entry non-blank, and any
/// walk positioned on an entry.
pub open spec fn history_wf(h: HistoryView) -> bool {
    &&& h.entries.len() <= h.limit
    &&& h.limit <= usize::MAX
    &&& forall|i: int| 0 <= i < h.entries.len() ==> is_entry(#[trigger] h.entries[i])
    &&& (h.pos matches Some(p) ==> p < h.entries.len())
}

/// Whether `s` holds a newline.
fn has_newline(s: &Vec<char>) -> (r: bool)
    ensures
        r == s@.contains('\n'),
{
    let mut i: usize = 0;
    while i < s.len()
        invariant
            i <= s@.len(),
            forall|j: int| 0 <= j < i ==> s@[j] != '\n',
        decreases s@.len() - i,
    {
        if s[i] == '\n' {
            assert(s@[i as int] == '\n');
            return true;
        }
        i = i + 1;
    }
    false
}

/// Whether `s` begins with `p`.
fn has_prefix(s: &Vec<char>, p: &Vec<char>) -> (r: bool)
    ensures
        r == starts_with(s@, p@),
{
    if p.len() > s.len() {
        return false;
    }
    let mut i: usize = 0;
    while i < p.len()
        invariant
            p@.len() <= s@.len(),
            i <= p@.len(),
            forall|j: int| 0 <= j < i ==> s@[j] == p@[j],
        decreases p@.len() - i,
    {
        if s[i] != p[i] {
            assert(s@.take(p@.len() as int)[i as int] != p@[i as int]);
            return false;
        }
        i = i + 1;
    }
    assert(s@.take(p@.len() as int) =~= p@);
    true
}

/// A copy of `v`.
fn copy_chars(v: &Vec<char>) -> (r: Vec<char>)
    ensures
        r@ == v@,
{
    let r = v.clone();
    assert(r@ =~= v@);
    r
}

impl History {
    pub open spec fn wf(&self) -> bool {
        history_wf(self@)
    }

    /// An empty history with the default switches.
    pub open spec fn new_spec() -> HistoryView {
        HistoryView {
            entries: Seq::empty(),
            limit: DEFAULT_LIMIT as nat,
            dedup_adjacent: true,
            ignore_leading_space: true,
            prefix_search: true,
            pos: None,
            draft: Seq::empty(),
            prefix: Seq::empty(),
        }
    }

    pub fn new() -> (r: Self)
        ensures
            r.wf(),
            r@ == Self::new_spec(),
    {
        let r = Self {
            entries: Vec::new(),
            limit: DEFAULT_LIMIT,
            dedup_adjacent: true,
            ignore_leading_space: true,
            prefix_search: true,
            pos: None,
            draft: Vec::new(),
            prefix: Vec::new(),
        };
        assert(r@.entries =~= Seq::<Seq<char>>::empty());
        r
    }

    /// Keep at most `limit` entries, dropping the oldest. Zero disables
    /// recording entirely.
    pub fn set_limit(&mut self, limit: usize)
        requires
            old(self).wf(),
        ensures
            final(self).wf(),
            final(self)@ == trimmed(HistoryView { limit: limit as nat, ..old(self)@ }),
    {
        self.limit = limit;
        self.trim();
    }

    /// Skip a line identical to the one before it. On by default.
    pub fn set_dedup_adjacent(&mut self, dedup: bool)
        requires
            old(self).wf(),
        ensures
            final(self).wf(),
            final(self)@ == (HistoryView { dedup_adjacent: dedup, ..old(self)@ }),
    {
        self.dedup_adjacent = dedup;
    }

    /// Skip a line that starts with a space, the shell convention for "do
    /// not remember this". On by default.
    pub fn set_ignore_leading_space(&mut self, ignore: bool)
        requires
            old(self).wf(),
        ensures
            final(self).wf(),
            final(self)@ == (HistoryView { ignore_leading_space: ignore, ..old(self)@ }),
    {
        self.ignore_leading_space = ignore;
    }

    /// Restrict Up/Down to entries starting with the text left of the
    /// cursor. On by default.
    pub fn set_prefix_search(&mut self, enabled: bool)
        requires
            old(self).wf(),
        ensures
            final(self).wf(),
            final(self)@ == (HistoryView { prefix_search: enabled, ..old(self)@ }),
    {
        self.prefix_search = enabled;
    }

    /// Record an accepted line, unless a switch above says not to.
    pub fn push(&mut self, line: &str)
        requires
            old(self).wf(),
        ensures
            final(self).wf(),
            final(self)@ == push_spec(old(self)@, line@),
    {
        let chars = chars_of(line);
        self.push_chars(chars);
    }

    /// Record an accepted line given as chars.
    pub fn push_chars(&mut self, line: Vec<char>)
        requires
            old(self).wf(),
        ensures
            final(self).wf(),
            final(self)@ == push_spec(old(self)@, line@),
    {
        self.end_navigation();
        if self.limit == 0 || all_whitespace(line.as_slice()) || has_newline(&line) {
            return;
        }
        if self.ignore_leading_space && line.len() > 0 && line[0] == ' ' {
            return;
        }
        if self.dedup_adjacent && self.entries.len() > 0 {
            let last = self.entries.len() - 1;
            if self.same_as(last, &line) {
                return;
            }
        }
        let ghost before = self@;
        self.entries.push(line);
        proof {
            assert(self@.entries =~= before.entries.push(line@));
        }
        self.trim();
    }

    /// Whether entry `i` is `line`.
    fn same_as(&self, i: usize, line: &Vec<char>) -> (r: bool)
        requires
            i < self.entries@.len(),
        ensures
            r == (self.entries@[i as int]@ == line@),
    {
        let e = &self.entries[i];
        if e.len() != line.len() {
            return false;
        }
        let mut j: usize = 0;
        while j < e.len()
            invariant
                e@.len() == line@.len(),
                e@ == self.entries@[i as int]@,
                j <= e@.len(),
                forall|k: int| 0 <= k < j ==> e@[k] == line@[k],
            decreases e@.len() - j,
        {
            if e[j] != line[j] {
                assert(e@[j as int] != line@[j as int]);
                return false;
            }
            j = j + 1;
        }
        assert(e@ =~= line@);
        true
    }

    /// The next matching entry going back, or `None` at the oldest one.
    ///
    /// The first call in a walk captures `current` as the draft to come back
    /// to and `current` up to the byte `cursor` (floored to a char boundary)
    /// as the prefix to match.
    pub fn older(&mut self, current: &str, cursor: usize) -> (r: Option<String>)
        requires
            old(self).wf(),
        ensures
            final(self).wf(),
            final(self)@ == older_spec(old(self)@, current@, cursor as int).0,
            match (r, older_spec(old(self)@, current@, cursor as int).1) {
                (Some(s), Some(e)) => s@ == e,
                (None, None) => true,
                _ => false,
            },
    {
        let chars = chars_of(current);
        match self.older_chars(&chars, cursor) {
            Some(e) => Some(string_of(e.as_slice())),
            None => None,
        }
    }

    /// `older` over a line given as chars.
    pub fn older_chars(&mut self, current: &Vec<char>, cursor: usize) -> (r: Option<Vec<char>>)
        requires
            old(self).wf(),
        ensures
            final(self).wf(),
            final(self)@ == older_spec(old(self)@, current@, cursor as int).0,
            match r {
                Some(s) => older_spec(old(self)@, current@, cursor as int).1 == Some(s@),
                None => older_spec(old(self)@, current@, cursor as int).1 is None,
            },
    {
        let cut = floor_char_index(current.as_slice(), cursor);
        self.older_at(current, cut)
    }

    /// `older`, with the prefix cut after `cut` chars of `current`.
    pub fn older_at(&mut self, current: &Vec<char>, cut: usize) -> (r: Option<Vec<char>>)
        requires
            old(self).wf(),
            cut <= current@.len(),
        ensures
            final(self).wf(),
            final(self)@ == older_at_spec(old(self)@, current@, cut as int).0,
            match r {
                Some(s) => older_at_spec(old(self)@, current@, cut as int).1 == Some(s@),
                None => older_at_spec(old(self)@, current@, cut as int).1 is None,
            },
    {
        if self.pos.is_none() {
            self.draft = copy_chars(current);
            if self.prefix_search {
                let end = cut;
                let mut p: Vec<char> = Vec::new();
                let mut i: usize = 0;
                while i < end
                    invariant
                        end <= current@.len(),
                        i <= end,
                        p@ == current@.take(i as int),
                    decreases end - i,
                {
                    p.push(current[i]);
                    i = i + 1;
                    assert(p@ =~= current@.take(i as int));
                }
                self.prefix = p;
            } else {
                self.prefix = Vec::new();
            }
        }
        let ghost h1 = self@;
        assert(h1 == walk_start(old(self)@, current@, cut as int)) by {
            assert(h1.entries =~= walk_start(old(self)@, current@, cut as int).entries);
        }
        let mut index: usize = match self.pos {
            Some(p) => p,
            None => self.entries.len(),
        };
        while index > 0
            invariant
                self@ == h1,
                h1 == walk_start(old(self)@, current@, cut as int),
                history_wf(h1),
                index <= h1.entries.len(),
                match_before(h1.entries, h1.prefix, (match h1.pos { Some(p) => p as int, None => h1.entries.len() as int })) == match_before(h1.entries, h1.prefix, index as int),
            decreases index,
        {
            index = index - 1;
            assert(self.entries@[index as int]@ == h1.entries[index as int]);
            assert(match_before(h1.entries, h1.prefix, index + 1) == if starts_with(h1.entries[index as int], h1.prefix) {
                Some(index as nat)
            } else {
                match_before(h1.entries, h1.prefix, index as int)
            });
            if has_prefix(&self.entries[index], &self.prefix) {
                self.pos = Some(index);
                let e = copy_chars(&self.entries[index]);
                proof {
                    assert(self@.entries =~= h1.entries);
                    assert(self@ == HistoryView { pos: Some(index as nat), ..h1 });
                }
                return Some(e);
            }
        }
        None
    }

    /// The next matching entry coming forward, or the draft once the walk
    /// reaches the end. `None` when no walk is in progress.
    pub fn newer(&mut self) -> (r: Option<String>)
        requires
            old(self).wf(),
        ensures
            final(self).wf(),
            final(self)@ == newer_spec(old(self)@).0,
            match (r, newer_spec(old(self)@).1) {
                (Some(s), Some(e)) => s@ == e,
                (None, None) => true,
                _ => false,
            },
    {
        match self.newer_chars() {
            Some(e) => Some(string_of(e.as_slice())),
            None => None,
        }
    }

    /// `newer`, handing back chars.
    pub fn newer_chars(&mut self) -> (r: Option<Vec<char>>)
        requires
            old(self).wf(),
        ensures
            final(self).wf(),
            final(self)@ == newer_spec(old(self)@).0,
            match r {
                Some(s) => newer_spec(old(self)@).1 == Some(s@),
                None => newer_spec(old(self)@).1 is None,
            },
    {
        let current = match self.pos {
            Some(p) => p,
            None => return None,
        };
        let ghost h = self@;
        let mut index = current + 1;
        while index < self.entries.len()
            invariant
                self@ == h,
                h == old(self)@,
                history_wf(h),
                h.pos == Some(current as nat),
                current < index <= h.entries.len(),
                match_from(h.entries, h.prefix, current + 1) == match_from(h.entries, h.prefix, index as int),
            decreases h.entries.len() - index,
        {
            assert(self.entries@[index as int]@ == h.entries[index as int]);
            assert(match_from(h.entries, h.prefix, index as int) == if starts_with(h.entries[index as int], h.prefix) {
                Some(index as nat)
            } else {
                match_from(h.entries, h.prefix, index + 1)
            });
            if has_prefix(&self.entries[index], &self.prefix) {
                self.pos = Some(index);
                let e = copy_chars(&self.entries[index]);
                proof {
                    assert(self@.entries =~= h.entries);
                    assert(self@ == HistoryView { pos: Some(index as nat), ..h });
                }
                return Some(e);
            }
            index = index + 1;
        }
        self.pos = None;
        self.prefix.clear();
        let mut draft: Vec<char> = Vec::new();
        std::mem::swap(&mut draft, &mut self.draft);
        proof {
            assert(self@.entries =~= h.entries);
            assert(self@.prefix =~= Seq::<char>::empty());
            assert(self@.draft =~= Seq::<char>::empty());
        }
        Some(draft)
    }

    /// Forget where a walk had got to; the next `older` starts from the
    /// newest entry.
    pub fn end_navigation(&mut self)
        requires
            old(self).wf(),
        ensures
            final(self).wf(),
            final(self)@ == idle(old(self)@),
    {
        self.pos = None;
        self.draft.clear();
        self.prefix.clear();
        proof {
            assert(self@.draft =~= Seq::<char>::empty());
            assert(self@.prefix =~= Seq::<char>::empty());
        }
    }

    /// Whether a walk is in progress.
    pub fn navigating(&self) -> (r: bool)
        ensures
            r == (self@.pos is Some),
    {
        self.pos.is_some()
    }

    /// Every entry, oldest first.
    pub fn entries(&self) -> (r: Vec<String>)
        ensures
            r@.len() == self@.entries.len(),
            forall|i: int| 0 <= i < r@.len() ==> (#[trigger] r@[i])@ == self@.entries[i],
    {
        let mut out: Vec<String> = Vec::new();
        let mut i: usize = 0;
        while i < self.entries.len()
            invariant
                i <= self.entries@.len(),
                out@.len() == i,
                forall|j: int| 0 <= j < i ==> (#[trigger] out@[j])@ == self.entries@[j]@,
            decreases self.entries@.len() - i,
        {
            out.push(string_of(self.entries[i].as_slice()));
            i = i + 1;
        }
        out
    }

    pub fn len(&self) -> (r: usize)
        ensures
            r == self@.entries.len(),
    {
        self.entries.len()
    }

    pub fn is_empty(&self) -> (r: bool)
        ensures
            r == (self@.entries.len() == 0),
    {
        self.entries.len() == 0
    }

    pub fn clear(&mut self)
        requires
            old(self).wf(),
        ensures
            final(self).wf(),
            final(self)@ == idle(HistoryView { entries: Seq::empty(), ..old(self)@ }),
    {
        self.pos = None;
        self.entries.clear();
        proof {
            assert(self@.entries =~= Seq::<Seq<char>>::empty());
        }
        self.end_navigation();
    }

    /// The entries as newline-separated UTF-8, oldest first.
    pub fn encode(&self) -> (r: Vec<u8>)
        ensures
            r@ == encode_entries(self@.entries),
    {
        let mut out: Vec<u8> = Vec::new();
        let mut i: usize = 0;
        assert(self@.entries.take(0) =~= Seq::<Seq<char>>::empty());
        while i < self.entries.len()
            invariant
                i <= self.entries@.len(),
                out@ == encode_entries(self@.entries.take(i as int)),
            decreases self.entries@.len() - i,
        {
            let s = string_of(self.entries[i].as_slice());
            let bytes = s.as_str().as_bytes();
            let mut j: usize = 0;
            let ghost start = out@;
            while j < bytes.len()
                invariant
                    j <= bytes@.len(),
                    out@ == start + bytes@.take(j as int),
                decreases bytes@.len() - j,
            {
                out.push(bytes[j]);
                j = j + 1;
                assert(out@ =~= start + bytes@.take(j as int));
            }
            out.push(10u8);
            proof {
                let t = self@.entries.take(i + 1);
                assert(t.drop_last() =~= self@.entries.take(i as int));
                assert(t.last() == self@.entries[i as int]);
                assert(bytes@.take(bytes@.len() as int) =~= bytes@);
                assert(out@ =~= encode_entries(t));
            }
            i = i + 1;
        }
        assert(self@.entries.take(i as int) =~= self@.entries);
        out
    }

    /// Replace the entries with the non-blank lines of `bytes`, keeping
    /// every switch and dropping the oldest beyond the limit.
    ///
    /// Invalid UTF-8 is replaced rather than rejected: a truncated history
    /// file is worth less than a session that refuses to start.
    pub fn decode(&mut self, bytes: &[u8])
        requires
            old(self).wf(),
        ensures
            final(self).wf(),
            final(self)@ == idle(HistoryView {
                entries: newest(entries_of(utf8_lossy(bytes@)), old(self)@.limit),
                ..old(self)@
            }),
            valid_utf8(bytes@) ==> final(self)@.entries == newest(entries_of(decode_utf8(bytes@)), old(self)@.limit),
    {
        let text = decode_lossy(bytes);
        let chars = chars_of(text.as_str());
        let found = lines_of(&chars);
        self.entries = found;
        self.pos = None;
        proof {
            assert forall|i: int| 0 <= i < self@.entries.len() implies is_entry(#[trigger] self@.entries[i]) by {
                lemma_nonblank_is_nonblank(lines(chars@), i);
                lemma_lines_hold_no_newline(chars@);
                lemma_nonblank_is_a_line(lines(chars@), i);
            }
        }
        self.trim_entries();
        self.end_navigation();
    }

    fn trim_entries(&mut self)
        requires
            old(self).limit <= usize::MAX,
            forall|i: int| 0 <= i < old(self)@.entries.len() ==> is_entry(#[trigger] old(self)@.entries[i]),
            old(self).pos is None,
        ensures
            final(self)@ == (HistoryView { entries: newest(old(self)@.entries, old(self)@.limit), ..old(self)@ }),
            final(self).wf(),
    {
        let ghost h = self@;
        if self.entries.len() > self.limit {
            let drop = self.entries.len() - self.limit;
            let kept = self.entries.split_off(drop);
            self.entries = kept;
            proof {
                assert(self@.entries =~= h.entries.skip(drop as int));
            }
        }
    }

    fn trim(&mut self)
        requires
            old(self).limit <= usize::MAX,
            forall|i: int| 0 <= i < old(self)@.entries.len() ==> is_entry(#[trigger] old(self)@.entries[i]),
            (old(self).pos matches Some(p) ==> p < old(self).entries@.len()),
        ensures
            final(self).wf(),
            final(self)@ == trimmed(old(self)@),
    {
        let navigating = self.pos.is_some();
        let ghost h = self@;
        if navigating {
            self.pos = None;
        }
        self.trim_entries();
        if navigating {
            self.end_navigation();
        }
        proof {
            assert(self@.entries =~= trimmed(h).entries);
        }
    }
}

/// Every line `nonblank` keeps is non-blank.
pub proof fn lemma_nonblank_is_nonblank(ls: Seq<Seq<char>>, i: int)
    requires
        0 <= i < nonblank(ls).len(),
    ensures
        !is_blank(nonblank(ls)[i]),
    decreases ls.len(),
{
    if ls.len() > 0 {
        if is_blank(ls.last()) {
            lemma_nonblank_is_nonblank(ls.drop_last(), i);
        } else if i < nonblank(ls.drop_last()).len() {
            lemma_nonblank_is_nonblank(ls.drop_last(), i);
        }
    }
}

/// Each line of `nonblank(ls)` is a line of `ls`.
pub proof fn lemma_nonblank_is_a_line(ls: Seq<Seq<char>>, i: int)
    requires
        0 <= i < nonblank(ls).len(),
    ensures
        exists|j: int| 0 <= j < ls.len() && ls[j] == nonblank(ls)[i],
    decreases ls.len(),
{
    if ls.len() > 0 {
        if is_blank(ls.last()) || i < nonblank(ls.drop_last()).len() {
            lemma_nonblank_is_a_line(ls.drop_last(), i);
            let j = choose|j: int| 0 <= j < ls.drop_last().len() && ls.drop_last()[j] == nonblank(ls.drop_last())[i];
            assert(ls[j] == ls.drop_last()[j]);
        } else {
            assert(ls[ls.len() - 1] == nonblank(ls)[i]);
        }
    }
}

/// Cutting at newlines leaves none in the pieces.
proof fn lemma_split_lines_hold_no_newline(s: Seq<char>)
    ensures
        !split_lines(s).1.contains('\n'),
        forall|i: int| 0 <= i < split_lines(s).0.len() ==> !(#[trigger] split_lines(s).0[i]).contains('\n'),
    decreases s.len(),
{
    if s.len() > 0 {
        lemma_split_lines_hold_no_newline(s.drop_last());
        let (done, cur) = split_lines(s.drop_last());
        if s.last() == '\n' {
            let st = strip_cr(cur);
            assert forall|k: int| 0 <= k < st.len() implies st[k] != '\n' by {
                assert(st[k] == cur[k]);
            }
            assert forall|i: int| 0 <= i < done.push(st).len() implies !(#[trigger] done.push(st)[i]).contains('\n') by {
                if i < done.len() {
                    assert(done.push(st)[i] == done[i]);
                }
            }
            assert(!Seq::<char>::empty().contains('\n'));
        } else {
            let c2 = cur.push(s.last());
            assert forall|k: int| 0 <= k < c2.len() implies c2[k] != '\n' by {
                if k < cur.len() {
                    assert(c2[k] == cur[k]);
                }
            }
        }
    }
}

/// No line of `s` holds a newline.
pub proof fn lemma_lines_hold_no_newline(s: Seq<char>)
    ensures
        forall|i: int| 0 <= i < lines(s).len() ==> !(#[trigger] lines(s)[i]).contains('\n'),
{
    lemma_split_lines_hold_no_newline(s);
    let (done, cur) = split_lines(s);
    if cur.len() > 0 {
        assert forall|i: int| 0 <= i < done.push(cur).len() implies !(#[trigger] done.push(cur)[i]).contains('\n') by {
            if i < done.len() {
                assert(done.push(cur)[i] == done[i]);
            }
        }
    }
}

/// The non-blank lines of `text`.
fn lines_of(text: &Vec<char>) -> (r: Vec<Vec<char>>)
    ensures
        r@.map_values(|e: Vec<char>| e@) == entries_of(text@),
{
    let mut done: Vec<Vec<char>> = Vec::new();
    let mut cur: Vec<char> = Vec::new();
    let mut i: usize = 0;
    let ghost mut all: Seq<Seq<char>> = Seq::empty();
    assert(text@.take(0) =~= Seq::<char>::empty());
    while i < text.len()
        invariant
            i <= text@.len(),
            split_lines(text@.take(i as int)) == (all, cur@),
            done@.map_values(|e: Vec<char>| e@) == nonblank(all),
        decreases text@.len() - i,
    {
        let c = text[i];
        proof {
            assert(text@.take(i + 1).drop_last() =~= text@.take(i as int));
            assert(text@.take(i + 1).last() == c);
        }
        if c == '\n' {
            let mut line: Vec<char> = Vec::new();
            std::mem::swap(&mut line, &mut cur);
            if line.len() > 0 && line[line.len() - 1] == '\r' {
                line.pop();
            }
            let ghost stripped = line@;
            proof {
                assert(stripped =~= crate::history::strip_cr(split_lines(text@.take(i as int)).1));
            }
            let ghost old_done = done@;
            if !all_whitespace(line.as_slice()) {
                done.push(line);
                proof {
                    assert(done@.map_values(|e: Vec<char>| e@) =~= old_done.map_values(|e: Vec<char>| e@).push(stripped));
                }
            }
            proof {
                assert(all.push(stripped).drop_last() =~= all);
                all = all.push(stripped);
                assert(cur@ =~= Seq::<char>::empty());
            }
        } else {
            cur.push(c);
        }
        i = i + 1;
    }
    assert(text@.take(i as int) =~= text@);
    if cur.len() > 0 {
        let ghost old_done = done@;
        let ghost last = cur@;
        if !all_whitespace(cur.as_slice()) {
            done.push(cur);
            proof {
                assert(done@.map_values(|e: Vec<char>| e@) =~= old_done.map_values(|e: Vec<char>| e@).push(last));
            }
        }
        proof {
            assert(all.push(last).drop_last() =~= all);
        }
    }
    done
}


/// The newest match before `end` has no match after it, up to `end`.
proof fn lemma_no_match_after_newest(es: Seq<Seq<char>>, p: Seq<char>, end: int, start: int)
    requires
        0 <= end <= es.len(),
        match_before(es, p, end) matches Some(i) && i < start,
        end == es.len(),
    ensures
        match_from(es, p, start) is None,
    decreases es.len() - start,
{
    if start < es.len() && start >= 0 {
        lemma_match_before_is_newest(es, p, end, start);
        lemma_no_match_after_newest(es, p, end, start + 1);
    }
}

/// No entry between the newest match before `end` and `end` matches.
proof fn lemma_match_before_is_newest(es: Seq<Seq<char>>, p: Seq<char>, end: int, k: int)
    requires
        0 <= end <= es.len(),
        match_before(es, p, end) matches Some(i) && i < k < end,
    ensures
        !starts_with(es[k], p),
    decreases end,
{
    if end > 0 && !starts_with(es[end - 1], p) {
        if k < end - 1 {
            lemma_match_before_is_newest(es, p, end - 1, k);
        }
    }
}

/// Whatever `match_before` finds lies before `end` and matches.
proof fn lemma_match_before_found(es: Seq<Seq<char>>, p: Seq<char>, end: int)
    requires
        0 <= end <= es.len(),
    ensures
        match_before(es, p, end) matches Some(i) ==> i < end && starts_with(es[i as int], p),
    decreases end,
{
    if end > 0 && !starts_with(es[end - 1], p) {
        lemma_match_before_found(es, p, end - 1);
    }
}

/// Walking back from a fresh line and then forward again returns to the
/// line that was being typed, and ends the walk.
pub proof fn law_walk_returns_to_the_draft(h: HistoryView, current: Seq<char>, cut: int)
    requires
        history_wf(h),
        h.pos is None,
        older_at_spec(h, current, cut).1 is Some,
    ensures
        newer_spec(older_at_spec(h, current, cut).0).1 == Some(current),
        newer_spec(older_at_spec(h, current, cut).0).0 == idle(older_at_spec(h, current, cut).0),
{
    let h1 = walk_start(h, current, cut);
    let i = match_before(h1.entries, h1.prefix, h1.entries.len() as int)->Some_0;
    lemma_match_before_found(h1.entries, h1.prefix, h1.entries.len() as int);
    lemma_no_match_after_newest(h1.entries, h1.prefix, h1.entries.len() as int, i + 1int);
}

/// A line that is recorded is what the next walk back recalls first, when
/// nothing is typed before the cursor.
pub proof fn law_recorded_line_is_recalled_first(h: HistoryView, line: Seq<char>, current: Seq<char>)
    requires
        history_wf(h),
        records(idle(h), line),
    ensures
        older_at_spec(push_spec(h, line), current, 0).1 == Some(line),
{
    let h1 = idle(h);
    let h2 = HistoryView { entries: h1.entries.push(line), ..h1 };
    let es = newest(h2.entries, h2.limit);
    assert(es.len() > 0);
    assert(es.last() == line);
    let w = walk_start(push_spec(h, line), current, 0);
    assert(w.prefix.len() == 0);
    assert(starts_with(es.last(), w.prefix)) by {
        assert(es.last().take(0) =~= w.prefix);
    }
}


/// The entries joined, each followed by a newline.
pub open spec fn joined(es: Seq<Seq<char>>) -> Seq<char>
    decreases es.len(),
{
    if es.len() == 0 {
        Seq::empty()
    } else {
        joined(es.drop_last()) + es.last() + seq!['\n']
    }
}

/// An entry the wire format can carry: non-blank, no newline in it, and no
/// carriage return at its end.
pub open spec fn carriable(e: Seq<char>) -> bool {
    &&& !is_blank(e)
    &&& forall|i: int| 0 <= i < e.len() ==> e[i] != '\n'
    &&& e.last() != '\r'
}

proof fn lemma_encode_utf8_concat(a: Seq<char>, b: Seq<char>)
    ensures
        encode_utf8(a + b) == encode_utf8(a) + encode_utf8(b),
    decreases a.len(),
{
    if a.len() == 0 {
        assert(a + b =~= b);
        assert(encode_utf8(a) =~= Seq::<u8>::empty());
        assert(encode_utf8(a) + encode_utf8(b) =~= encode_utf8(b));
    } else {
        assert((a + b).drop_first() =~= a.drop_first() + b);
        assert((a + b)[0] == a[0]);
        lemma_encode_utf8_concat(a.drop_first(), b);
        assert(encode_utf8(a + b) =~= encode_utf8(a) + encode_utf8(b));
    }
}

proof fn lemma_encode_newline()
    ensures
        encode_utf8(seq!['\n']) == seq![10u8],
{
    assert(('\n' as u32) == 10);
    assert((10u32 & 0x7F) as u8 == 10u8) by (bit_vector);
    assert(seq!['\n'].drop_first() =~= Seq::<char>::empty());
    assert(encode_utf8(seq!['\n'].drop_first()) =~= Seq::<u8>::empty());
    assert(encode_utf8(seq!['\n']) =~= seq![10u8]);
}

proof fn lemma_encode_entries_joined(es: Seq<Seq<char>>)
    ensures
        encode_entries(es) == encode_utf8(joined(es)),
    decreases es.len(),
{
    if es.len() == 0 {
        assert(encode_utf8(Seq::<char>::empty()) =~= Seq::<u8>::empty());
    } else {
        lemma_encode_entries_joined(es.drop_last());
        lemma_encode_utf8_concat(joined(es.drop_last()) + es.last(), seq!['\n']);
        lemma_encode_utf8_concat(joined(es.drop_last()), es.last());
        lemma_encode_newline();
    }
}

/// Text without a newline only extends the line being read.
proof fn lemma_split_plain(s: Seq<char>, t: Seq<char>)
    requires
        forall|i: int| 0 <= i < t.len() ==> t[i] != '\n',
    ensures
        split_lines(s + t) == (split_lines(s).0, split_lines(s).1 + t),
    decreases t.len(),
{
    if t.len() == 0 {
        assert(s + t =~= s);
        assert(split_lines(s).1 + t =~= split_lines(s).1);
    } else {
        assert((s + t).drop_last() =~= s + t.drop_last());
        assert((s + t).last() == t.last());
        lemma_split_plain(s, t.drop_last());
        assert((split_lines(s).1 + t.drop_last()).push(t.last()) =~= split_lines(s).1 + t);
    }
}

proof fn lemma_split_joined(es: Seq<Seq<char>>)
    requires
        forall|i: int| 0 <= i < es.len() ==> carriable(#[trigger] es[i]),
    ensures
        split_lines(joined(es)) == (es, Seq::<char>::empty()),
    decreases es.len(),
{
    if es.len() == 0 {
        assert(es =~= Seq::<Seq<char>>::empty());
    } else {
        let prev = es.drop_last();
        assert forall|i: int| 0 <= i < prev.len() implies carriable(#[trigger] prev[i]) by {
            assert(prev[i] == es[i]);
        }
        lemma_split_joined(prev);
        let e = es.last();
        assert(carriable(es[es.len() - 1]));
        lemma_split_plain(joined(prev), e);
        assert(Seq::<char>::empty() + e =~= e);
        let x = joined(prev) + e;
        assert((x + seq!['\n']).drop_last() =~= x);
        assert(e.len() > 0) by {
            if e.len() == 0 {
                assert(is_blank(e));
            }
        }
        assert(strip_cr(e) == e);
        assert(prev.push(e) =~= es);
    }
}

proof fn lemma_nonblank_keeps_nonblank(es: Seq<Seq<char>>)
    requires
        forall|i: int| 0 <= i < es.len() ==> !is_blank(#[trigger] es[i]),
    ensures
        nonblank(es) == es,
    decreases es.len(),
{
    if es.len() > 0 {
        let prev = es.drop_last();
        assert forall|i: int| 0 <= i < prev.len() implies !is_blank(#[trigger] prev[i]) by {
            assert(prev[i] == es[i]);
        }
        lemma_nonblank_keeps_nonblank(prev);
        assert(!is_blank(es[es.len() - 1]));
        assert(prev.push(es.last()) =~= es);
    }
}

/// The wire format round-trips: entries that are non-blank, hold no
/// newline and do not end in a carriage return encode to valid UTF-8 that
/// decodes back to the same entries.
pub proof fn law_wire_format_round_trips(es: Seq<Seq<char>>)
    requires
        forall|i: int| 0 <= i < es.len() ==> carriable(#[trigger] es[i]),
    ensures
        valid_utf8(encode_entries(es)),
        entries_of(decode_utf8(encode_entries(es))) == es,
{
    lemma_encode_entries_joined(es);
    vstd::utf8::encode_utf8_valid_utf8(joined(es));
    vstd::utf8::encode_utf8_decode_utf8(joined(es));
    lemma_split_joined(es);
    assert forall|i: int| 0 <= i < es.len() implies !is_blank(#[trigger] es[i]) by {
        assert(carriable(es[i]));
    }
    lemma_nonblank_keeps_nonblank(es);
}

/// What a history writes it reads back: the entries of a well-formed
/// history hold no newline, so each is one line of its encoding, and
/// decoding gives the same entries, as long as none ends in a carriage
/// return (which a line ending would swallow).
pub proof fn law_history_round_trips(h: HistoryView)
    requires
        history_wf(h),
        forall|i: int| 0 <= i < h.entries.len() ==> (#[trigger] h.entries[i]).last() != '\r',
    ensures
        valid_utf8(encode_entries(h.entries)),
        entries_of(decode_utf8(encode_entries(h.entries))) == h.entries,
{
    assert forall|i: int| 0 <= i < h.entries.len() implies carriable(#[trigger] h.entries[i]) by {
        assert(is_entry(h.entries[i]));
        let e = h.entries[i];
        assert forall|k: int| 0 <= k < e.len() implies e[k] != '\n' by {
            if e[k] == '\n' {
                assert(e.contains('\n'));
            }
        }
    }
    law_wire_format_round_trips(h.entries);
}

/// Up walks back through the matches of one prefix: once `older` has found
/// an entry, a walk is in progress, and the next `older` (whatever line and
/// cursor it is handed) searches with the same prefix and finds only an
/// older entry that starts with it.
pub proof fn law_older_walks_back(h: HistoryView, current: Seq<char>, cursor: int, next: Seq<char>, next_cursor: int)
    requires
        history_wf(h),
        older_spec(h, current, cursor).1 is Some,
    ensures
        ({
            let h1 = older_spec(h, current, cursor).0;
            let (h2, found) = older_spec(h1, next, next_cursor);
            &&& h1.pos is Some
            &&& h2.prefix == h1.prefix
            &&& h2.draft == h1.draft
            &&& (found matches Some(e) ==> starts_with(e, h1.prefix)
                && h2.pos->0 < h1.pos->0)
            &&& (found is None ==> h2 == h1)
        }),
{
    let h1s = walk_start(h, current, floor_char(current, cursor) as int);
    let end: int = match h1s.pos {
        Some(p) => p as int,
        None => h1s.entries.len() as int,
    };
    lemma_match_before_found(h1s.entries, h1s.prefix, end);
    let h1 = older_spec(h, current, cursor).0;
    let p1 = h1.pos->0;
    lemma_match_before_found(h1.entries, h1.prefix, p1 as int);
}

/// A walk is in progress exactly while `pos` is set: recording a line ends
/// it, and so does walking forward past the newest match, which hands back
/// the draft.
pub proof fn law_recording_ends_the_walk(h: HistoryView, line: Seq<char>)
    ensures
        push_spec(h, line).pos is None,
        newer_spec(h).0.pos is None <==> (h.pos is None || match_from(h.entries, h.prefix, h.pos->0 + 1int) is None),
{
}

/// After a limit is set, every recording keeps the history within it.
pub proof fn law_pushes_keep_the_limit(h: HistoryView, line: Seq<char>)
    requires
        history_wf(h),
    ensures
        push_spec(h, line).limit == h.limit,
        push_spec(h, line).entries.len() <= h.limit,
{
}

/// How many newline bytes (`0x0A`) `b` holds.
pub open spec fn newline_bytes(b: Seq<u8>) -> nat
    decreases b.len(),
{
    if b.len() == 0 {
        0
    } else {
        (if b[0] == 10u8 { 1nat } else { 0nat }) + newline_bytes(b.drop_first())
    }
}

proof fn lemma_newline_bytes_concat(a: Seq<u8>, b: Seq<u8>)
    ensures
        newline_bytes(a + b) == newline_bytes(a) + newline_bytes(b),
    decreases a.len(),
{
    if a.len() == 0 {
        assert(a + b =~= b);
    } else {
        assert((a + b).drop_first() =~= a.drop_first() + b);
        lemma_newline_bytes_concat(a.drop_first(), b);
    }
}

/// A char other than a newline encodes to no newline byte: a one-byte
/// encoding is the char itself, and every byte of a longer one has its
/// high bit set.
proof fn lemma_scalar_has_no_newline(c: char)
    requires
        c != '\n',
    ensures
        newline_bytes(encode_scalar(c as u32)) == 0,
{
    let x = c as u32;
    reveal_with_fuel(newline_bytes, 5);
    assert(x != 10u32);
    assert(x <= 0x7f ==> (x & 0x7F) as u8 != 10u8) by (bit_vector)
        requires
            x != 10u32,
    ;
    assert((0xC0u8 | ((x >> 6) & 0x1F) as u8) != 10u8) by (bit_vector);
    assert((0xE0u8 | ((x >> 12) & 0x0F) as u8) != 10u8) by (bit_vector);
    assert((0xF0u8 | ((x >> 18) & 0x7) as u8) != 10u8) by (bit_vector);
    assert((0x80u8 | (x & 0x3F) as u8) != 10u8) by (bit_vector);
    assert((0x80u8 | ((x >> 6) & 0x3F) as u8) != 10u8) by (bit_vector);
    assert((0x80u8 | ((x >> 12) & 0x3F) as u8) != 10u8) by (bit_vector);
    let e = encode_scalar(x);
    if e.len() == 2 {
        assert(e.drop_first().drop_first() =~= Seq::<u8>::empty());
    } else if e.len() == 3 {
        assert(e.drop_first().drop_first().drop_first() =~= Seq::<u8>::empty());
    } else if e.len() == 4 {
        assert(e.drop_first().drop_first().drop_first().drop_first() =~= Seq::<u8>::empty());
    } else {
        assert(e.drop_first() =~= Seq::<u8>::empty());
    }
}

/// Text without a newline encodes to no newline byte.
proof fn lemma_encoding_has_no_newline(t: Seq<char>)
    requires
        !t.contains('\n'),
    ensures
        newline_bytes(encode_utf8(t)) == 0,
    decreases t.len(),
{
    if t.len() > 0 {
        assert(t[0] != '\n');
        let rest = t.drop_first();
        assert(!rest.contains('\n')) by {
            if rest.contains('\n') {
                let j = choose|j: int| 0 <= j < rest.len() && rest[j] == '\n';
                assert(t[j + 1] == '\n');
            }
        }
        lemma_encoding_has_no_newline(rest);
        lemma_scalar_has_no_newline(t[0]);
        lemma_newline_bytes_concat(encode_scalar(t[0] as u32), encode_utf8(rest));
    }
}

/// A well-formed history encodes to exactly one newline byte per entry:
/// no entry holds a newline, so the only ones are those that end entries.
pub proof fn law_one_newline_per_entry(h: HistoryView)
    requires
        history_wf(h),
    ensures
        newline_bytes(encode_entries(h.entries)) == h.entries.len(),
{
    lemma_newline_count(h.entries);
}

proof fn lemma_newline_count(es: Seq<Seq<char>>)
    requires
        forall|i: int| 0 <= i < es.len() ==> is_entry(#[trigger] es[i]),
    ensures
        newline_bytes(encode_entries(es)) == es.len(),
    decreases es.len(),
{
    if es.len() > 0 {
        let init = es.drop_last();
        assert forall|i: int| 0 <= i < init.len() implies is_entry(#[trigger] init[i]) by {
            assert(init[i] == es[i]);
        }
        lemma_newline_count(init);
        assert(is_entry(es[es.len() - 1]));
        lemma_encoding_has_no_newline(es.last());
        lemma_newline_bytes_concat(encode_entries(init), encode_utf8(es.last()));
        lemma_newline_bytes_concat(encode_entries(init) + encode_utf8(es.last()), seq![10u8]);
        reveal_with_fuel(newline_bytes, 2);
        assert(seq![10u8].drop_first() =~= Seq::<u8>::empty());
    }
}

/// The indices before `end` of the entries that start with `p`, newest
/// first.
pub open spec fn matches_newest_first(es: Seq<Seq<char>>, p: Seq<char>, end: int) -> Seq<nat>
    decreases end,
{
    if end <= 0 {
        Seq::empty()
    } else if starts_with(es[end - 1], p) {
        seq![(end - 1) as nat] + matches_newest_first(es, p, end - 1)
    } else {
        matches_newest_first(es, p, end - 1)
    }
}

/// The history after `n` calls of `older(current, cursor)`, and what the
/// last of them returned.
pub open spec fn older_times(h: HistoryView, current: Seq<char>, cursor: int, n: nat) -> (HistoryView, Option<Seq<char>>)
    decreases n,
{
    if n <= 1 {
        older_spec(h, current, cursor)
    } else {
        older_spec(older_times(h, current, cursor, (n - 1) as nat).0, current, cursor)
    }
}

/// `match_before` finds the first of the newest-first matches, and the
/// matches before that one are the rest.
proof fn lemma_match_before_first(es: Seq<Seq<char>>, p: Seq<char>, end: int)
    requires
        0 <= end <= es.len(),
    ensures
        ({
            let m = matches_newest_first(es, p, end);
            &&& forall|i: int| 0 <= i < m.len() ==> #[trigger] m[i] < end
            &&& (m.len() == 0 <==> match_before(es, p, end) is None)
            &&& m.len() > 0 ==> match_before(es, p, end) == Some(m[0])
                && m[0] < end
                && matches_newest_first(es, p, m[0] as int) == m.drop_first()
        }),
    decreases end,
{
    if end > 0 {
        lemma_match_before_first(es, p, end - 1);
        let m = matches_newest_first(es, p, end);
        let m1 = matches_newest_first(es, p, end - 1);
        if starts_with(es[end - 1], p) {
            assert(m.drop_first() =~= m1);
            assert forall|i: int| 0 <= i < m.len() implies #[trigger] m[i] < end by {
                if i > 0 {
                    assert(m[i] == m1[i - 1]);
                }
            }
        }
    }
}

/// A walk up from the line being typed visits the entries that start with
/// its prefix (what lies left of the cursor, or nothing with prefix search
/// off) newest first, one per call, and then finds nothing.
pub proof fn law_walk_visits_matches_newest_first(h: HistoryView, current: Seq<char>, cursor: int, n: nat)
    requires
        history_wf(h),
        h.pos is None,
        cursor >= 0,
        n >= 1,
    ensures
        ({
            let p = if h.prefix_search { current.take(floor_char(current, cursor) as int) } else { Seq::empty() };
            let m = matches_newest_first(h.entries, p, h.entries.len() as int);
            older_times(h, current, cursor, n).1 == if n <= m.len() {
                Some(h.entries[m[n - 1] as int])
            } else {
                None::<Seq<char>>
            }
        }),
    decreases n,
{
    lemma_walk_state(h, current, cursor, n);
}

/// Where the walk stands after `n` calls: on the `n`-th newest match while
/// there is one, then on the last (or, with none at all, not walking).
proof fn lemma_walk_state(h: HistoryView, current: Seq<char>, cursor: int, n: nat)
    requires
        history_wf(h),
        h.pos is None,
        cursor >= 0,
        n >= 1,
    ensures
        ({
            let p = if h.prefix_search { current.take(floor_char(current, cursor) as int) } else { Seq::empty() };
            let m = matches_newest_first(h.entries, p, h.entries.len() as int);
            let (h1, found) = older_times(h, current, cursor, n);
            &&& h1.entries == h.entries
            &&& found == if n <= m.len() { Some(h.entries[m[n - 1] as int]) } else { None::<Seq<char>> }
            &&& m.len() == 0 ==> h1.pos is None && h1.prefix_search == h.prefix_search
            &&& m.len() > 0 ==> h1.prefix == p && h1.pos == Some(m[if n <= m.len() { n - 1 } else { m.len() - 1 }])
                && matches_newest_first(h.entries, p, h1.pos->0 as int) == m.skip(if n <= m.len() { n as int } else { m.len() as int })
        }),
    decreases n,
{
    let p = if h.prefix_search { current.take(floor_char(current, cursor) as int) } else { Seq::empty() };
    let es = h.entries;
    let m = matches_newest_first(es, p, es.len() as int);
    lemma_floor_char_bound(current, cursor);
    lemma_match_before_first(es, p, es.len() as int);
    if n == 1 {
        if m.len() > 0 {
            assert(m.skip(1) =~= m.drop_first());
        }
    } else {
        lemma_walk_state(h, current, cursor, (n - 1) as nat);
        let h0 = older_times(h, current, cursor, (n - 1) as nat).0;
        if m.len() > 0 {
            let at = h0.pos->0;
            let jj = if n - 1 <= m.len() { n - 2 } else { m.len() - 1 };
            assert(m[jj] < es.len());
            lemma_match_before_first(es, p, at as int);
            let j = if n - 1 <= m.len() { n - 1 } else { m.len() as int };
            if n <= m.len() {
                assert(m.skip(j)[0] == m[n - 1]);
                assert(m.skip(j).drop_first() =~= m.skip(n as int));
            } else {
                assert(m.skip(m.len() as int).len() == 0);
            }
        }
    }
}

/// What recording a line does to the entries: a blank line, a line with a
/// newline in it, a line starting with a space (while such lines are
/// ignored), a repeat of the newest entry (while repeats are dropped), or
/// anything at all with a zero limit leaves them as they were; any other
/// line becomes the newest entry, the oldest dropping off at the limit.
/// A new history drops repeats and ignores lines starting with a space.
pub proof fn law_push_records_the_line(h: HistoryView, line: Seq<char>)
    requires
        history_wf(h),
    ensures
        History::new_spec().dedup_adjacent && History::new_spec().ignore_leading_space && History::new_spec().prefix_search,
        (is_blank(line) || line.contains('\n') || h.limit == 0
            || (h.ignore_leading_space && line.len() > 0 && line[0] == ' ')
            || (h.dedup_adjacent && h.entries.len() > 0 && h.entries.last() == line))
            ==> push_spec(h, line).entries == h.entries,
        !(is_blank(line) || line.contains('\n') || h.limit == 0
            || (h.ignore_leading_space && line.len() > 0 && line[0] == ' ')
            || (h.dedup_adjacent && h.entries.len() > 0 && h.entries.last() == line))
            ==> push_spec(h, line).entries.last() == line
                && push_spec(h, line).entries.drop_last() == (if h.entries.len() < h.limit { h.entries } else { h.entries.drop_first() }),
{
    let e = h.entries.push(line);
    if h.limit != 0 && h.entries.len() == h.limit {
        assert(e.len() == h.limit + 1);
        assert(newest(e, h.limit) == e.skip(1));
        assert(e.skip(1).drop_last() =~= h.entries.drop_first());
        assert(e.skip(1).last() == line);
    } else {
        assert(e.drop_last() =~= h.entries);
    }
}

} // verus!
