//! Grapheme clusters and words: the units the editor moves and deletes by.
//!
//! Cluster boundaries come from `unicode_segmentation`. A "word" is a run
//! of non-whitespace, which is what a shell prompt means by it.

use vstd::prelude::*;
use unicode_segmentation::UnicodeSegmentation;
use crate::text::{floor_char, floor_char_index, is_ws, is_whitespace, string_of, lemma_floor_char_bound};

verus! {

/// The byte offsets at which `UnicodeSegmentation::grapheme_indices(text,
/// true)` starts each extended grapheme cluster of `text`.
pub uninterp spec fn grapheme_starts(text: Seq<char>) -> Seq<usize>;

/// Calls `UnicodeSegmentation::grapheme_indices` (extended clusters) on
/// `text` and keeps the byte offset of each cluster. Nothing is claimed of
/// the offsets beyond their being that function's, by the name
/// `grapheme_starts`.
#[verifier::external_body]
fn grapheme_offsets(text: &str) -> (r: Vec<usize>)
    ensures
        r@ == grapheme_starts(text@),
{
    text.grapheme_indices(true).map(|(index, _)| index).collect()
}

/// The start of the last cluster of `pre`, as a char index, given the
/// cluster starts `starts` of `pre` in bytes: zero when there is none.
pub open spec fn last_cluster_start(pre: Seq<char>, starts: Seq<usize>) -> nat {
    if starts.len() == 0 {
        0
    } else {
        floor_char(pre, starts.last() as int)
    }
}

/// The end of the first cluster of `suffix`, as a char index into `suffix`,
/// given its cluster starts `starts` in bytes: nothing moves on an empty
/// suffix, and a single cluster runs to its end.
pub open spec fn first_cluster_end(suffix: Seq<char>, starts: Seq<usize>) -> nat {
    if starts.len() == 0 {
        0
    } else if starts.len() == 1 {
        suffix.len()
    } else {
        floor_char(suffix, starts[1] as int)
    }
}

/// The char index of the start of the cluster before `at` in `text`.
pub open spec fn prev_cluster(text: Seq<char>, at: nat) -> nat {
    last_cluster_start(text.take(at as int), grapheme_starts(text.take(at as int)))
}

/// The char index of the end of the cluster starting at `at` in `text`.
pub open spec fn next_cluster(text: Seq<char>, at: nat) -> nat {
    at + first_cluster_end(text.skip(at as int), grapheme_starts(text.skip(at as int)))
}

/// Back over whitespace clusters from `i`.
pub open spec fn back_over_space(text: Seq<char>, i: nat) -> nat
    decreases i,
{
    if i == 0 || i > text.len() {
        i
    } else {
        let p = prev_cluster(text, i);
        if p < i && is_ws(text[p as int]) {
            back_over_space(text, p)
        } else {
            i
        }
    }
}

/// Back over non-whitespace clusters from `i`.
pub open spec fn back_over_word(text: Seq<char>, i: nat) -> nat
    decreases i,
{
    if i == 0 || i > text.len() {
        i
    } else {
        let p = prev_cluster(text, i);
        if p < i && !is_ws(text[p as int]) {
            back_over_word(text, p)
        } else {
            i
        }
    }
}

/// Forward over non-whitespace clusters from `i`.
pub open spec fn over_word(text: Seq<char>, i: nat) -> nat
    decreases text.len() - i,
{
    if i >= text.len() {
        i
    } else {
        let n = next_cluster(text, i);
        if i < n <= text.len() && !is_ws(text[i as int]) {
            over_word(text, n)
        } else {
            i
        }
    }
}

/// Forward over whitespace clusters from `i`.
pub open spec fn over_space(text: Seq<char>, i: nat) -> nat
    decreases text.len() - i,
{
    if i >= text.len() {
        i
    } else {
        let n = next_cluster(text, i);
        if i < n <= text.len() && is_ws(text[i as int]) {
            over_space(text, n)
        } else {
            i
        }
    }
}

/// The start of the word at or before `at`: back over whitespace, then back
/// over the word.
pub open spec fn word_start(text: Seq<char>, at: nat) -> nat {
    back_over_word(text, back_over_space(text, at))
}

/// Past the end of the word at or after `at`, and past the whitespace that
/// follows it.
pub open spec fn word_end(text: Seq<char>, at: nat) -> nat {
    over_space(text, over_word(text, at))
}

pub proof fn lemma_back_bounds(text: Seq<char>, i: nat)
    requires
        i <= text.len(),
    ensures
        back_over_space(text, i) <= i,
        back_over_word(text, i) <= i,
        word_start(text, i) <= i,
    decreases i,
{
    if i > 0 {
        let p = prev_cluster(text, i);
        if p < i {
            lemma_back_bounds(text, p);
        }
    }
    let j = back_over_space(text, i);
    lemma_back_word_bound(text, j);
}

proof fn lemma_back_word_bound(text: Seq<char>, i: nat)
    requires
        i <= text.len(),
    ensures
        back_over_word(text, i) <= i,
    decreases i,
{
    if i > 0 {
        let p = prev_cluster(text, i);
        if p < i {
            lemma_back_word_bound(text, p);
        }
    }
}

pub proof fn lemma_forward_bounds(text: Seq<char>, i: nat)
    requires
        i <= text.len(),
    ensures
        i <= over_word(text, i) <= text.len(),
        i <= over_space(text, i) <= text.len(),
        i <= word_end(text, i) <= text.len(),
    decreases text.len() - i,
{
    if i < text.len() {
        let n = next_cluster(text, i);
        if i < n <= text.len() {
            lemma_forward_bounds(text, n);
        }
    }
    let j = over_word(text, i);
    lemma_over_space_bound(text, j);
}

proof fn lemma_over_space_bound(text: Seq<char>, i: nat)
    requires
        i <= text.len(),
    ensures
        i <= over_space(text, i) <= text.len(),
    decreases text.len() - i,
{
    if i < text.len() {
        let n = next_cluster(text, i);
        if i < n <= text.len() {
            lemma_over_space_bound(text, n);
        }
    }
}

/// The start of the last cluster of `pre`, given its cluster starts in
/// bytes as `grapheme_indices` reports them.
pub fn cluster_before(pre: &[char], starts: &[usize]) -> (r: usize)
    ensures
        r == last_cluster_start(pre@, starts@),
        r <= pre@.len(),
{
    if starts.len() == 0 {
        0
    } else {
        floor_char_index(pre, starts[starts.len() - 1])
    }
}

/// The end of the first cluster of `suffix`, given its cluster starts in
/// bytes as `grapheme_indices` reports them.
pub fn cluster_after(suffix: &[char], starts: &[usize]) -> (r: usize)
    ensures
        r == first_cluster_end(suffix@, starts@),
        r <= suffix@.len(),
{
    if starts.len() == 0 {
        0
    } else if starts.len() == 1 {
        suffix.len()
    } else {
        floor_char_index(suffix, starts[1])
    }
}

/// The first `n` chars of `v`.
pub fn take_chars(v: &Vec<char>, n: usize) -> (r: Vec<char>)
    requires
        n <= v@.len(),
    ensures
        r@ == v@.take(n as int),
{
    let mut out: Vec<char> = Vec::new();
    let mut i: usize = 0;
    while i < n
        invariant
            n <= v@.len(),
            i <= n,
            out@ == v@.take(i as int),
        decreases n - i,
    {
        out.push(v[i]);
        i = i + 1;
        assert(out@ =~= v@.take(i as int));
    }
    out
}

/// The chars of `v` from index `n` on.
pub fn skip_chars(v: &Vec<char>, n: usize) -> (r: Vec<char>)
    requires
        n <= v@.len(),
    ensures
        r@ == v@.skip(n as int),
{
    let mut out: Vec<char> = Vec::new();
    let mut i: usize = n;
    while i < v.len()
        invariant
            n <= i <= v@.len(),
            out@ == v@.subrange(n as int, i as int),
        decreases v@.len() - i,
    {
        out.push(v[i]);
        i = i + 1;
        assert(out@ =~= v@.subrange(n as int, i as int));
    }
    assert(out@ =~= v@.skip(n as int));
    out
}

/// The char index of the start of the cluster before `at`.
pub fn prev_grapheme(text: &Vec<char>, at: usize) -> (r: usize)
    requires
        at <= text@.len(),
    ensures
        r == prev_cluster(text@, at as nat),
        r <= at,
{
    let pre = take_chars(text, at);
    let s = string_of(pre.as_slice());
    let starts = grapheme_offsets(s.as_str());
    cluster_before(pre.as_slice(), starts.as_slice())
}

/// The char index of the end of the cluster starting at `at`.
pub fn next_grapheme(text: &Vec<char>, at: usize) -> (r: usize)
    requires
        at <= text@.len(),
    ensures
        r == next_cluster(text@, at as nat),
        at <= r <= text@.len(),
{
    let suffix = skip_chars(text, at);
    let s = string_of(suffix.as_slice());
    let starts = grapheme_offsets(s.as_str());
    let k = cluster_after(suffix.as_slice(), starts.as_slice());
    let n = text.len();
    assert(k <= n - at);
    at + k
}

/// The start of the word at or before `at`.
pub fn prev_word(text: &Vec<char>, at: usize) -> (r: usize)
    requires
        at <= text@.len(),
    ensures
        r == word_start(text@, at as nat),
        r <= at,
{
    let mut index = at;
    while index > 0
        invariant
            index <= at <= text@.len(),
            back_over_space(text@, at as nat) == back_over_space(text@, index as nat),
        ensures
            back_over_space(text@, at as nat) == index as nat,
        decreases index,
    {
        let previous = prev_grapheme(text, index);
        if !(previous < index && is_whitespace(text[previous])) {
            break;
        }
        index = previous;
    }
    let ghost mid = index as nat;
    proof {
        lemma_back_bounds(text@, at as nat);
    }
    while index > 0
        invariant
            index <= mid <= at <= text@.len(),
            back_over_word(text@, mid) == back_over_word(text@, index as nat),
        ensures
            back_over_word(text@, mid) == index as nat,
        decreases index,
    {
        let previous = prev_grapheme(text, index);
        if !(previous < index && !is_whitespace(text[previous])) {
            break;
        }
        index = previous;
    }
    index
}

/// Past the end of the word at or after `at`, and the whitespace after it.
pub fn next_word(text: &Vec<char>, at: usize) -> (r: usize)
    requires
        at <= text@.len(),
    ensures
        r == word_end(text@, at as nat),
        at <= r <= text@.len(),
{
    let length = text.len();
    let mut index = at;
    while index < length
        invariant
            length == text@.len(),
            at <= index <= length,
            over_word(text@, at as nat) == over_word(text@, index as nat),
        ensures
            over_word(text@, at as nat) == index as nat,
        decreases length - index,
    {
        let next = next_grapheme(text, index);
        if !(index < next && !is_whitespace(text[index])) {
            break;
        }
        index = next;
    }
    let ghost mid = index as nat;
    while index < length
        invariant
            length == text@.len(),
            at <= mid <= index <= length,
            over_space(text@, mid) == over_space(text@, index as nat),
        ensures
            over_space(text@, mid) == index as nat,
        decreases length - index,
    {
        let next = next_grapheme(text, index);
        if !(index < next && is_whitespace(text[index])) {
            break;
        }
        index = next;
    }
    index
}

} // verus!
