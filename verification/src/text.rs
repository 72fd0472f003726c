//! Text as the editor sees it: a sequence of `char`s, with the UTF-8 byte
//! offsets that the public interface speaks in computed from it.

use vstd::prelude::*;

verus! {

broadcast use vstd::string::group_string_axioms;

/// The number of bytes `c` takes in UTF-8.
pub open spec fn utf8_width(c: char) -> nat {
    if (c as u32) < 0x80 {
        1
    } else if (c as u32) < 0x800 {
        2
    } else if (c as u32) < 0x10000 {
        3
    } else {
        4
    }
}

/// The number of bytes `s` takes in UTF-8.
pub open spec fn utf8_len(s: Seq<char>) -> nat
    decreases s.len(),
{
    if s.len() == 0 {
        0
    } else {
        utf8_width(s[0]) + utf8_len(s.drop_first())
    }
}

/// The number of `char`s of `s` that lie wholly within its first `b`
/// bytes: the char index of the last char boundary at or before byte `b`.
pub open spec fn floor_char(s: Seq<char>, b: int) -> nat
    decreases s.len(),
{
    if s.len() == 0 || utf8_width(s[0]) > b {
        0
    } else {
        1 + floor_char(s.drop_first(), b - utf8_width(s[0]))
    }
}

/// The char index of the first char boundary at or after byte `b`, or the
/// length of `s` when `b` is past its end.
pub open spec fn ceil_char(s: Seq<char>, b: int) -> nat
    decreases s.len(),
{
    if b <= 0 || s.len() == 0 {
        0
    } else {
        1 + ceil_char(s.drop_first(), b - utf8_width(s[0]))
    }
}

/// Whether `c` has the Unicode `White_Space` property, which is what
/// `char::is_whitespace` tests.
pub open spec fn is_ws(c: char) -> bool {
    ('\u{9}' <= c && c <= '\u{d}') || c == ' ' || c == '\u{85}' || c == '\u{a0}' || c == '\u{1680}'
        || ('\u{2000}' <= c && c <= '\u{200a}') || c == '\u{2028}' || c == '\u{2029}' || c
        == '\u{202f}' || c == '\u{205f}' || c == '\u{3000}'
}

/// Whether `c` is in the Unicode general category `Cc` (the C0 controls,
/// DEL and the C1 controls), which is what `char::is_control` tests.
pub open spec fn is_cc(c: char) -> bool {
    c <= '\u{1f}' || ('\u{7f}' <= c && c <= '\u{9f}')
}

/// Whether every char of `s` is whitespace: what `str::trim` empties.
pub open spec fn is_blank(s: Seq<char>) -> bool {
    forall|i: int| 0 <= i < s.len() ==> is_ws(#[trigger] s[i])
}

pub proof fn lemma_utf8_len_concat(a: Seq<char>, b: Seq<char>)
    ensures
        utf8_len(a + b) == utf8_len(a) + utf8_len(b),
    decreases a.len(),
{
    if a.len() > 0 {
        assert((a + b).drop_first() =~= a.drop_first() + b);
        lemma_utf8_len_concat(a.drop_first(), b);
    } else {
        assert(a + b =~= b);
    }
}

/// Appending a char adds its width.
pub proof fn lemma_utf8_len_push(a: Seq<char>, c: char)
    ensures
        utf8_len(a.push(c)) == utf8_len(a) + utf8_width(c),
{
    assert(a.push(c) =~= a + seq![c]);
    lemma_utf8_len_concat(a, seq![c]);
    assert(seq![c].drop_first() =~= Seq::<char>::empty());
    assert(utf8_len(Seq::<char>::empty()) == 0);
    assert(utf8_len(seq![c]) == utf8_width(c) + utf8_len(seq![c].drop_first()));
}

/// A longer prefix is never shorter in bytes.
pub proof fn lemma_utf8_len_prefix_monotone(s: Seq<char>, i: int, j: int)
    requires
        0 <= i <= j <= s.len(),
    ensures
        utf8_len(s.take(i)) <= utf8_len(s.take(j)),
{
    assert(s.take(j) =~= s.take(i) + s.subrange(i, j));
    lemma_utf8_len_concat(s.take(i), s.subrange(i, j));
}

/// `floor_char` never passes the end of `s`.
pub proof fn lemma_floor_char_bound(s: Seq<char>, b: int)
    ensures
        floor_char(s, b) <= s.len(),
    decreases s.len(),
{
    if s.len() > 0 && utf8_width(s[0]) <= b {
        lemma_floor_char_bound(s.drop_first(), b - utf8_width(s[0]));
    }
}

/// `ceil_char` never passes the end of `s`.
pub proof fn lemma_ceil_char_bound(s: Seq<char>, b: int)
    ensures
        ceil_char(s, b) <= s.len(),
    decreases s.len(),
{
    if b > 0 && s.len() > 0 {
        lemma_ceil_char_bound(s.drop_first(), b - utf8_width(s[0]));
    }
}

/// The bytes of a prefix one char longer than `k` chars of `s`: the first
/// char's, then those of `k` chars of the rest.
pub proof fn lemma_utf8_len_take_succ(s: Seq<char>, k: int)
    requires
        0 <= k < s.len(),
    ensures
        utf8_len(s.take(k + 1)) == utf8_width(s[0]) + utf8_len(s.drop_first().take(k)),
{
    let t = s.take(k + 1);
    assert(t.drop_first() =~= s.drop_first().take(k));
    assert(t[0] == s[0]);
}

/// `floor_char(s, b)` is the last char boundary of `s` at or before byte
/// `b`: its prefix takes at most `b` bytes, and one char more takes more.
pub proof fn lemma_floor_char_is_last_boundary(s: Seq<char>, b: int)
    requires
        b >= 0,
    ensures
        floor_char(s, b) <= s.len(),
        utf8_len(s.take(floor_char(s, b) as int)) <= b,
        floor_char(s, b) < s.len() ==> utf8_len(s.take(floor_char(s, b) + 1int)) > b,
    decreases s.len(),
{
    if s.len() > 0 && utf8_width(s[0]) <= b {
        let w = utf8_width(s[0]);
        let rest = s.drop_first();
        lemma_floor_char_is_last_boundary(rest, b - w);
        let k = floor_char(rest, b - w);
        lemma_utf8_len_take_succ(s, k as int);
        if k + 1 < s.len() {
            lemma_utf8_len_take_succ(s, k + 1int);
        }
    } else {
        assert(s.take(0) =~= Seq::<char>::empty());
        if s.len() > 0 {
            lemma_utf8_len_take_succ(s, 0);
            assert(s.drop_first().take(0) =~= Seq::<char>::empty());
        }
    }
}

/// `ceil_char(s, b)` is the first char boundary of `s` at or after byte
/// `b`, or the end of `s` when `b` lies past it: a prefix one char shorter
/// takes fewer than `b` bytes, and short of the end it takes at least `b`.
pub proof fn lemma_ceil_char_is_first_boundary(s: Seq<char>, b: int)
    ensures
        ceil_char(s, b) <= s.len(),
        ceil_char(s, b) < s.len() ==> utf8_len(s.take(ceil_char(s, b) as int)) >= b,
        ceil_char(s, b) > 0 ==> utf8_len(s.take(ceil_char(s, b) - 1)) < b,
    decreases s.len(),
{
    if b > 0 && s.len() > 0 {
        let w = utf8_width(s[0]);
        let rest = s.drop_first();
        lemma_ceil_char_is_first_boundary(rest, b - w);
        let k = ceil_char(rest, b - w);
        lemma_utf8_len_take_succ(s, k as int);
        if k > 0 {
            lemma_utf8_len_take_succ(s, k - 1);
        } else {
            assert(s.take(0) =~= Seq::<char>::empty());
        }
    } else {
        assert(s.take(0) =~= Seq::<char>::empty());
    }
}

/// The floor of a boundary is never past its ceiling.
pub proof fn lemma_floor_le_ceil_of_larger(s: Seq<char>, a: int, b: int)
    requires
        a <= b,
    ensures
        floor_char(s, a) <= ceil_char(s, b) || floor_char(s, a) <= floor_char(s, b),
    decreases s.len(),
{
    if s.len() > 0 && utf8_width(s[0]) <= a {
        lemma_floor_le_ceil_of_larger(s.drop_first(), a - utf8_width(s[0]), b - utf8_width(s[0]));
    }
}

/// The number of bytes `c` takes in UTF-8, as `char::len_utf8` gives it.
pub fn len_utf8(c: char) -> (r: usize)
    ensures
        r == utf8_width(c),
{
    let v = c as u32;
    if v < 0x80 {
        1
    } else if v < 0x800 {
        2
    } else if v < 0x10000 {
        3
    } else {
        4
    }
}

/// Whether `c` has the Unicode `White_Space` property.
pub fn is_whitespace(c: char) -> (r: bool)
    ensures
        r == is_ws(c),
{
    ('\u{9}' <= c && c <= '\u{d}') || c == ' ' || c == '\u{85}' || c == '\u{a0}' || c == '\u{1680}'
        || ('\u{2000}' <= c && c <= '\u{200a}') || c == '\u{2028}' || c == '\u{2029}' || c
        == '\u{202f}' || c == '\u{205f}' || c == '\u{3000}'
}

/// Whether `c` is a control character (general category `Cc`).
pub fn is_control(c: char) -> (r: bool)
    ensures
        r == is_cc(c),
{
    c <= '\u{1f}' || ('\u{7f}' <= c && c <= '\u{9f}')
}

/// Whether every char of `s` is whitespace.
pub fn all_whitespace(s: &[char]) -> (r: bool)
    ensures
        r == is_blank(s@),
{
    let mut i: usize = 0;
    while i < s.len()
        invariant
            i <= s@.len(),
            forall|j: int| 0 <= j < i ==> is_ws(#[trigger] s@[j]),
        decreases s@.len() - i,
    {
        if !is_whitespace(s[i]) {
            return false;
        }
        i = i + 1;
    }
    true
}

/// The byte offset of char index `i` in `s`, saturating at `usize::MAX`.
pub fn byte_offset(s: &[char], i: usize) -> (r: usize)
    requires
        i <= s@.len(),
    ensures
        r == (if utf8_len(s@.take(i as int)) <= usize::MAX {
            utf8_len(s@.take(i as int))
        } else {
            usize::MAX as nat
        }),
{
    let mut acc: usize = 0;
    let mut k: usize = 0;
    assert(s@.take(0) =~= Seq::<char>::empty());
    while k < i
        invariant
            k <= i <= s@.len(),
            acc == utf8_len(s@.take(k as int)),
        decreases i - k,
    {
        let w = len_utf8(s[k]);
        proof {
            assert(s@.take(k + 1) =~= s@.take(k as int).push(s@[k as int]));
            lemma_utf8_len_push(s@.take(k as int), s@[k as int]);
        }
        if acc > usize::MAX - w {
            proof {
                lemma_utf8_len_prefix_monotone(s@, k + 1, i as int);
            }
            return usize::MAX;
        }
        acc = acc + w;
        k = k + 1;
    }
    acc
}

/// The char index of the last char boundary at or before byte `b`.
pub fn floor_char_index(s: &[char], b: usize) -> (r: usize)
    ensures
        r == floor_char(s@, b as int),
        r <= s@.len(),
{
    let mut acc: usize = 0;
    let mut i: usize = 0;
    assert(s@.skip(0) =~= s@);
    while i < s.len()
        invariant
            i <= s@.len(),
            acc <= b,
            floor_char(s@, b as int) == i + floor_char(s@.skip(i as int), b - acc),
        decreases s@.len() - i,
    {
        let w = len_utf8(s[i]);
        assert(s@.skip(i as int)[0] == s@[i as int]);
        assert(s@.skip(i as int).drop_first() =~= s@.skip(i + 1));
        if w > b - acc {
            return i;
        }
        acc = acc + w;
        i = i + 1;
    }
    assert(s@.skip(i as int) =~= Seq::<char>::empty());
    i
}

/// The char index of the first char boundary at or after byte `b`, or the
/// length of `s` when `b` is past its end.
pub fn ceil_char_index(s: &[char], b: usize) -> (r: usize)
    ensures
        r == ceil_char(s@, b as int),
        r <= s@.len(),
{
    let mut acc: usize = 0;
    let mut i: usize = 0;
    assert(s@.skip(0) =~= s@);
    while i < s.len() && acc < b
        invariant
            i <= s@.len(),
            ceil_char(s@, b as int) == i + ceil_char(s@.skip(i as int), b - acc),
        decreases s@.len() - i,
    {
        let w = len_utf8(s[i]);
        assert(s@.skip(i as int)[0] == s@[i as int]);
        assert(s@.skip(i as int).drop_first() =~= s@.skip(i + 1));
        if w >= b - acc {
            proof {
                let t = s@.skip(i + 1);
                assert(ceil_char(t, b - acc - w) == 0) by {
                    reveal_with_fuel(ceil_char, 1);
                }
            }
            return i + 1;
        }
        acc = acc + w;
        i = i + 1;
    }
    if i == s.len() {
        assert(s@.skip(i as int) =~= Seq::<char>::empty());
    }
    i
}

/// The chars of `s`.
pub fn chars_of(s: &str) -> (r: Vec<char>)
    ensures
        r@ == s@,
{
    let mut out: Vec<char> = Vec::new();
    for c in iter: s.chars()
        invariant
            out@ == iter.seq().take(iter.index() as int),
    {
        out.push(c);
    }
    out
}

/// `String::push` appends one char to the end of the string, which is all
/// that its documentation says it does.
pub assume_specification[ String::push ](s: &mut String, ch: char)
    ensures
        final(s)@ == old(s)@.push(ch),
;

/// The string holding exactly the chars of `chars`.
pub fn string_of(chars: &[char]) -> (r: String)
    ensures
        r@ == chars@,
{
    let mut out = String::new();
    let mut i: usize = 0;
    while i < chars.len()
        invariant
            i <= chars@.len(),
            out@ == chars@.take(i as int),
        decreases chars@.len() - i,
    {
        out.push(chars[i]);
        i = i + 1;
        assert(out@ =~= chars@.take(i as int));
    }
    assert(chars@.take(i as int) =~= chars@);
    out
}


/// The decimal digit `d` as a char.
pub open spec fn digit_char(d: nat) -> char {
    ((d + 48) as u32) as char
}

/// `n` written in decimal, as `Display` for an unsigned integer writes it.
pub open spec fn decimal(n: nat) -> Seq<char>
    decreases n,
{
    if n < 10 {
        seq![digit_char(n)]
    } else {
        decimal(n / 10).push(digit_char(n % 10))
    }
}

/// Append `n` in decimal to `out`.
pub fn push_decimal(out: &mut String, n: usize)
    ensures
        final(out)@ == old(out)@ + decimal(n as nat),
    decreases n,
{
    if n >= 10 {
        push_decimal(out, n / 10);
    }
    let d = (n % 10) as u8;
    let c = (d + 48) as char;
    out.push(c);
    proof {
        assert(c == digit_char((n % 10) as nat));
        if n >= 10 {
            assert(decimal(n as nat) == decimal((n / 10) as nat).push(digit_char((n % 10) as nat)));
        }
    }
}

/// Append the `u64` `n` in decimal to `out`.
pub fn push_decimal_u64(out: &mut String, n: u64)
    ensures
        final(out)@ == old(out)@ + decimal(n as nat),
    decreases n,
{
    if n >= 10 {
        push_decimal_u64(out, n / 10);
    }
    let d = (n % 10) as u8;
    let c = (d + 48) as char;
    out.push(c);
    proof {
        assert(c == digit_char((n % 10) as nat));
        if n >= 10 {
            assert(decimal(n as nat) == decimal((n / 10) as nat).push(digit_char((n % 10) as nat)));
        }
    }
}

} // verus!
