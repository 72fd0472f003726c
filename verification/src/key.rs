//! The normalized key vocabulary every backend decodes into.
//!
//! A `KeyPress` says what the human pressed, never what it should do; that
//! mapping lives in `crate::keymap`, so a host can rebind without touching a
//! decoder.

use vstd::prelude::*;

verus! {

/// Modifier keys held during a key press.
///
/// One variant per combination of shift, alt and control, so `CTRL | SHIFT`
/// is one value. `bits` gives the usual encoding: bit 0 shift, bit 1 alt,
/// bit 2 control.
#[allow(non_camel_case_types)]
#[derive(Clone, Copy, PartialEq, Eq, Hash, Default, Debug, Structural)]
pub enum Mods {
    #[default]
    NONE,
    SHIFT,
    ALT,
    ALT_SHIFT,
    CTRL,
    CTRL_SHIFT,
    CTRL_ALT,
    CTRL_ALT_SHIFT,
}

/// Whether shift is among `m`.
pub open spec fn has_shift(m: Mods) -> bool {
    m is SHIFT || m is ALT_SHIFT || m is CTRL_SHIFT || m is CTRL_ALT_SHIFT
}

/// Whether alt is among `m`.
pub open spec fn has_alt(m: Mods) -> bool {
    m is ALT || m is ALT_SHIFT || m is CTRL_ALT || m is CTRL_ALT_SHIFT
}

/// Whether control is among `m`.
pub open spec fn has_ctrl(m: Mods) -> bool {
    m is CTRL || m is CTRL_SHIFT || m is CTRL_ALT || m is CTRL_ALT_SHIFT
}

/// The set holding exactly the modifiers flagged.
pub open spec fn mods_of(shift: bool, alt: bool, ctrl: bool) -> Mods {
    if ctrl {
        if alt {
            if shift { Mods::CTRL_ALT_SHIFT } else { Mods::CTRL_ALT }
        } else {
            if shift { Mods::CTRL_SHIFT } else { Mods::CTRL }
        }
    } else {
        if alt {
            if shift { Mods::ALT_SHIFT } else { Mods::ALT }
        } else {
            if shift { Mods::SHIFT } else { Mods::NONE }
        }
    }
}

/// A set of modifiers is determined by which of the three it holds.
pub proof fn lemma_mods_extensional(m: Mods)
    ensures
        mods_of(has_shift(m), has_alt(m), has_ctrl(m)) == m,
{
}

/// `mods_of` holds exactly the modifiers it was asked for.
pub proof fn lemma_mods_of_flags(shift: bool, alt: bool, ctrl: bool)
    ensures
        has_shift(mods_of(shift, alt, ctrl)) == shift,
        has_alt(mods_of(shift, alt, ctrl)) == alt,
        has_ctrl(mods_of(shift, alt, ctrl)) == ctrl,
{
}

impl Mods {
    /// The set holding exactly the modifiers flagged.
    pub fn from_flags(shift: bool, alt: bool, ctrl: bool) -> (r: Mods)
        ensures
            r == mods_of(shift, alt, ctrl),
    {
        if ctrl {
            if alt {
                if shift { Mods::CTRL_ALT_SHIFT } else { Mods::CTRL_ALT }
            } else {
                if shift { Mods::CTRL_SHIFT } else { Mods::CTRL }
            }
        } else {
            if alt {
                if shift { Mods::ALT_SHIFT } else { Mods::ALT }
            } else {
                if shift { Mods::SHIFT } else { Mods::NONE }
            }
        }
    }

    pub fn is_empty(self) -> (r: bool)
        ensures
            r == (self == Mods::NONE),
    {
        match self {
            Mods::NONE => true,
            _ => false,
        }
    }

    pub fn ctrl(self) -> (r: bool)
        ensures
            r == has_ctrl(self),
    {
        match self {
            Mods::CTRL | Mods::CTRL_SHIFT | Mods::CTRL_ALT | Mods::CTRL_ALT_SHIFT => true,
            _ => false,
        }
    }

    pub fn alt(self) -> (r: bool)
        ensures
            r == has_alt(self),
    {
        match self {
            Mods::ALT | Mods::ALT_SHIFT | Mods::CTRL_ALT | Mods::CTRL_ALT_SHIFT => true,
            _ => false,
        }
    }

    pub fn shift(self) -> (r: bool)
        ensures
            r == has_shift(self),
    {
        match self {
            Mods::SHIFT | Mods::ALT_SHIFT | Mods::CTRL_SHIFT | Mods::CTRL_ALT_SHIFT => true,
            _ => false,
        }
    }

    /// Whether every modifier in `other` is also in `self`.
    pub fn contains(self, other: Mods) -> (r: bool)
        ensures
            r == ((has_shift(other) ==> has_shift(self)) && (has_alt(other) ==> has_alt(self)) && (
            has_ctrl(other) ==> has_ctrl(self))),
    {
        (!other.shift() || self.shift()) && (!other.alt() || self.alt()) && (!other.ctrl()
            || self.ctrl())
    }

    /// Every modifier in either set.
    pub fn union(self, other: Mods) -> (r: Mods)
        ensures
            r == mods_of(
                has_shift(self) || has_shift(other),
                has_alt(self) || has_alt(other),
                has_ctrl(self) || has_ctrl(other),
            ),
    {
        Mods::from_flags(
            self.shift() || other.shift(),
            self.alt() || other.alt(),
            self.ctrl() || other.ctrl(),
        )
    }

    /// The modifiers of `self` that are not in `other`.
    pub fn without(self, other: Mods) -> (r: Mods)
        ensures
            r == mods_of(
                has_shift(self) && !has_shift(other),
                has_alt(self) && !has_alt(other),
                has_ctrl(self) && !has_ctrl(other),
            ),
    {
        Mods::from_flags(
            self.shift() && !other.shift(),
            self.alt() && !other.alt(),
            self.ctrl() && !other.ctrl(),
        )
    }

    /// The usual bit encoding: bit 0 shift, bit 1 alt, bit 2 control.
    pub fn bits(self) -> (r: u8)
        ensures
            r == (if has_shift(self) { 1u8 } else { 0u8 }) + (if has_alt(self) { 2u8 } else { 0u8 }) + (
            if has_ctrl(self) { 4u8 } else { 0u8 }),
    {
        match self {
            Mods::NONE => 0,
            Mods::SHIFT => 1,
            Mods::ALT => 2,
            Mods::ALT_SHIFT => 3,
            Mods::CTRL => 4,
            Mods::CTRL_SHIFT => 5,
            Mods::CTRL_ALT => 6,
            Mods::CTRL_ALT_SHIFT => 7,
        }
    }

    /// Decode an xterm modifier parameter: the `5` in `ESC [ 1 ; 5 D`.
    ///
    /// The parameter is `1 + bits`, where bit 0 is shift, 1 is alt, 2 is
    /// control. Higher bits (meta, hyper, super) have no counterpart here
    /// and are dropped.
    pub fn from_xterm_param(param: u32) -> (r: Mods)
        ensures
            r == xterm_mods(param),
    {
        if param == 0 {
            return Mods::NONE;
        }
        let bits = param - 1;
        Mods::from_flags(bits & 1 != 0, bits & 2 != 0, bits & 4 != 0)
    }

    /// The names of the held modifiers, `CTRL|ALT|SHIFT` order, or `NONE`.
    pub fn describe(self) -> (r: String)
        ensures
            r@ == mods_description(self),
    {
        let mut out = String::new();
        if self.is_empty() {
            out.append("NONE");
            return out;
        }
        let mut first = true;
        if self.ctrl() {
            out.append("CTRL");
            first = false;
        }
        if self.alt() {
            if !first {
                out.append("|");
            }
            out.append("ALT");
            first = false;
        }
        if self.shift() {
            if !first {
                out.append("|");
            }
            out.append("SHIFT");
        }
        out
    }
}

/// What `Mods::from_xterm_param` decodes `param` to.
pub open spec fn xterm_mods(param: u32) -> Mods {
    if param == 0 {
        Mods::NONE
    } else {
        let bits = (param - 1) as u32;
        mods_of(bits & 1 != 0, bits & 2 != 0, bits & 4 != 0)
    }
}

/// The text `Mods::describe` gives: the held modifiers' names joined by `|`.
pub open spec fn mods_description(m: Mods) -> Seq<char> {
    if m == Mods::NONE {
        "NONE"@
    } else {
        let c: Seq<char> = if has_ctrl(m) { "CTRL"@ } else { Seq::empty() };
        let a: Seq<char> = if has_alt(m) {
            if has_ctrl(m) { "|"@ + "ALT"@ } else { "ALT"@ }
        } else {
            Seq::empty()
        };
        let s: Seq<char> = if has_shift(m) {
            if has_ctrl(m) || has_alt(m) { "|"@ + "SHIFT"@ } else { "SHIFT"@ }
        } else {
            Seq::empty()
        };
        c + a + s
    }
}


impl core::ops::BitOr for Mods {
    type Output = Mods;

    fn bitor(self, rhs: Mods) -> (r: Mods)
        ensures
            r == mods_of(
                has_shift(self) || has_shift(rhs),
                has_alt(self) || has_alt(rhs),
                has_ctrl(self) || has_ctrl(rhs),
            ),
    {
        self.union(rhs)
    }
}

impl vstd::std_specs::ops::BitOrSpecImpl for Mods {
    open spec fn obeys_bitor_spec() -> bool {
        true
    }

    open spec fn bitor_req(self, rhs: Mods) -> bool {
        true
    }

    open spec fn bitor_spec(self, rhs: Mods) -> Mods {
        mods_of(
            has_shift(self) || has_shift(rhs),
            has_alt(self) || has_alt(rhs),
            has_ctrl(self) || has_ctrl(rhs),
        )
    }
}

/// A physical key, modifiers excluded.
#[derive(Clone, Copy, PartialEq, Eq, Hash, Debug, Structural)]
pub enum KeyCode {
    Char(char),
    Enter,
    Tab,
    Backspace,
    Delete,
    Insert,
    Escape,
    Left,
    Right,
    Up,
    Down,
    Home,
    End,
    PageUp,
    PageDown,
    /// Function key, 1-based: `F(1)` is F1.
    F(u8),
}

/// A key press: a [`KeyCode`] and the [`Mods`] held with it.
#[derive(Clone, Copy, PartialEq, Eq, Hash, Debug, Structural)]
pub struct KeyPress {
    pub code: KeyCode,
    pub mods: Mods,
}

/// Whether `c` is an ASCII letter.
pub open spec fn is_ascii_letter(c: char) -> bool {
    ('a' <= c && c <= 'z') || ('A' <= c && c <= 'Z')
}

/// `c` with an ASCII capital folded to lowercase; anything else unchanged.
pub open spec fn ascii_lower(c: char) -> char {
    if 'A' <= c && c <= 'Z' {
        ((c as u32) + 32) as char
    } else {
        c
    }
}

/// Fold an ASCII capital to lowercase, leaving every other character alone.
pub fn to_ascii_lowercase(c: char) -> (r: char)
    ensures
        r == ascii_lower(c),
{
    if 'A' <= c && c <= 'Z' {
        ((c as u8) + 32) as char
    } else {
        c
    }
}

/// The form `KeyPress::normalized` gives: a control-modified ASCII letter
/// folded to lowercase with its shift bit dropped, anything else unchanged.
pub open spec fn normal_form(k: KeyPress) -> KeyPress {
    match k.code {
        KeyCode::Char(c) => if has_ctrl(k.mods) && is_ascii_letter(c) {
            KeyPress {
                code: KeyCode::Char(ascii_lower(c)),
                mods: mods_of(false, has_alt(k.mods), true),
            }
        } else {
            k
        },
        _ => k,
    }
}

impl KeyPress {
    pub fn new(code: KeyCode, mods: Mods) -> (r: Self)
        ensures
            r == (KeyPress { code, mods }),
    {
        Self { code, mods }
    }

    pub fn plain(code: KeyCode) -> (r: Self)
        ensures
            r == (KeyPress { code, mods: Mods::NONE }),
    {
        Self::new(code, Mods::NONE)
    }

    pub fn char(c: char) -> (r: Self)
        ensures
            r == (KeyPress { code: KeyCode::Char(c), mods: Mods::NONE }),
    {
        Self::new(KeyCode::Char(c), Mods::NONE)
    }

    /// Control plus `c`, with an ASCII capital folded to lowercase.
    pub fn ctrl(c: char) -> (r: Self)
        ensures
            r == (KeyPress { code: KeyCode::Char(ascii_lower(c)), mods: Mods::CTRL }),
    {
        Self::new(KeyCode::Char(to_ascii_lowercase(c)), Mods::CTRL)
    }

    pub fn alt(c: char) -> (r: Self)
        ensures
            r == (KeyPress { code: KeyCode::Char(c), mods: Mods::ALT }),
    {
        Self::new(KeyCode::Char(c), Mods::ALT)
    }

    /// The form used for keymap lookup.
    ///
    /// Terminals disagree about the case of a control character's letter,
    /// so a control-modified ASCII letter is folded to lowercase and its
    /// shift bit dropped. Everything else is left as the decoder reported it.
    pub fn normalized(self) -> (r: Self)
        ensures
            r == normal_form(self),
    {
        match self.code {
            KeyCode::Char(c) => {
                if self.mods.ctrl() && (('a' <= c && c <= 'z') || ('A' <= c && c <= 'Z')) {
                    Self::new(KeyCode::Char(to_ascii_lowercase(c)), self.mods.without(Mods::SHIFT))
                } else {
                    self
                }
            },
            _ => self,
        }
    }
}

/// Normalizing twice is normalizing once.
pub proof fn lemma_normalized_idempotent(k: KeyPress)
    ensures
        normal_form(normal_form(k)) == normal_form(k),
{
    match k.code {
        KeyCode::Char(c) => {
            if has_ctrl(k.mods) && is_ascii_letter(c) {
                let l = ascii_lower(c);
                assert('a' <= l && l <= 'z');
                assert(ascii_lower(l) == l);
            }
        },
        _ => {},
    }
}

/// xterm's modifier parameter is one more than the sum of 1 for Shift, 2
/// for Alt and 4 for Ctrl; reading it gives back exactly those modifiers,
/// and a parameter of 0 or 1 means none.
pub proof fn law_xterm_modifier_parameter(shift: bool, alt: bool, ctrl: bool)
    ensures
        xterm_mods((1 + (if shift { 1int } else { 0 }) + (if alt { 2int } else { 0 }) + (if ctrl { 4int } else { 0 })) as u32)
            == mods_of(shift, alt, ctrl),
        xterm_mods(0) == Mods::NONE,
        xterm_mods(1) == Mods::NONE,
{
    assert(forall|b: u32| #![auto] b < 8 ==> ((b & 1 != 0) == (b % 2 == 1)) && ((b & 2 != 0) == ((b / 2) % 2 == 1))
        && ((b & 4 != 0) == (b / 4 == 1))) by (bit_vector);
    let b: u32 = ((if shift { 1int } else { 0 }) + (if alt { 2int } else { 0 }) + (if ctrl { 4int } else { 0 })) as u32;
    assert(b < 8);
    assert((b & 1 != 0) == (b % 2 == 1));
    assert((b & 2 != 0) == ((b / 2) % 2 == 1));
    assert((b & 4 != 0) == (b / 4 == 1));
    assert(0u32 < 8);
    assert((0u32 & 1 != 0) == (0u32 % 2 == 1));
    assert((0u32 & 2 != 0) == ((0u32 / 2) % 2 == 1));
    assert((0u32 & 4 != 0) == (0u32 / 4 == 1));
}

} // verus!
