//! What a key press means, and the table that decides.
//!
//! An unbound printable key inserts itself; an unbound anything-else is
//! ignored. That fallback is why a table lists only the exceptions.

use vstd::prelude::*;
use crate::key::{KeyCode, KeyPress, Mods, has_alt, has_ctrl, mods_of, normal_form, lemma_normalized_idempotent};
use crate::text::{is_cc, is_control};

verus! {

/// What the editor should do about a key.
#[derive(Clone, Copy, PartialEq, Eq, Debug, Structural)]
pub enum Action {
    /// Insert this character at the cursor.
    Insert(char),
    /// Finish the line and hand it to the caller.
    Accept,
    /// Ask the completer what could follow.
    Complete,
    MoveLeft,
    MoveRight,
    MoveWordLeft,
    MoveWordRight,
    MoveStart,
    MoveEnd,
    HistoryPrev,
    HistoryNext,
    DeleteBack,
    DeleteForward,
    DeleteWordBack,
    DeleteWordForward,
    KillToStart,
    KillToEnd,
    Undo,
    Redo,
    /// Abandon the line but keep the session (Escape).
    Cancel,
    /// Redraw from a clean screen.
    ClearScreen,
    /// The line is abandoned and the caller is told (Ctrl+C).
    Interrupt,
    /// End of input on an empty line (Ctrl+D).
    Eof,
    /// Do nothing.
    Ignore,
}

/// A key-press-to-action table.
#[derive(Clone, Debug)]
pub struct Keymap {
    bindings: Vec<(KeyPress, Action)>,
}

/// Whether `k` is bound somewhere in `s`.
pub open spec fn is_bound(s: Seq<(KeyPress, Action)>, k: KeyPress) -> bool {
    exists|i: int| 0 <= i < s.len() && (#[trigger] s[i]).0 == k
}

/// The table `s` lists, as a map.
pub open spec fn table(s: Seq<(KeyPress, Action)>) -> Map<KeyPress, Action> {
    Map::new(
        |k: KeyPress| is_bound(s, k),
        |k: KeyPress| s[choose|i: int| 0 <= i < s.len() && (#[trigger] s[i]).0 == k].1,
    )
}

/// No key is listed twice, and every key is in its normal form.
pub open spec fn well_formed_table(s: Seq<(KeyPress, Action)>) -> bool {
    &&& forall|i: int, j: int|
        0 <= i < s.len() && 0 <= j < s.len() && (#[trigger] s[i]).0 == (#[trigger] s[j]).0 ==> i
            == j
    &&& forall|i: int| 0 <= i < s.len() ==> normal_form((#[trigger] s[i]).0) == s[i].0
}

/// What a key does under `bindings`: its binding if it has one; otherwise a
/// printable character (not a control character) without control or alt
/// inserts itself, and anything else is ignored.
pub open spec fn lookup_spec(bindings: Map<KeyPress, Action>, key: KeyPress) -> Action {
    let k = normal_form(key);
    if bindings.contains_key(k) {
        bindings[k]
    } else {
        match k.code {
            KeyCode::Char(c) => if !is_cc(c) && !has_ctrl(k.mods) && !has_alt(k.mods) {
                Action::Insert(c)
            } else {
                Action::Ignore
            },
            _ => Action::Ignore,
        }
    }
}

/// The default table: every key that does something other than insert
/// itself. Bindings follow readline where readline has an opinion, and the
/// desktop convention where it does not.
pub open spec fn default_table() -> Map<KeyPress, Action> {
    map![
        KeyPress { code: KeyCode::Enter, mods: Mods::NONE } => Action::Accept,
        KeyPress { code: KeyCode::Tab, mods: Mods::NONE } => Action::Complete,
        KeyPress { code: KeyCode::Escape, mods: Mods::NONE } => Action::Cancel,
        KeyPress { code: KeyCode::Left, mods: Mods::NONE } => Action::MoveLeft,
        KeyPress { code: KeyCode::Right, mods: Mods::NONE } => Action::MoveRight,
        KeyPress { code: KeyCode::Home, mods: Mods::NONE } => Action::MoveStart,
        KeyPress { code: KeyCode::End, mods: Mods::NONE } => Action::MoveEnd,
        KeyPress { code: KeyCode::Left, mods: Mods::CTRL } => Action::MoveWordLeft,
        KeyPress { code: KeyCode::Right, mods: Mods::CTRL } => Action::MoveWordRight,
        KeyPress { code: KeyCode::Char('b'), mods: Mods::ALT } => Action::MoveWordLeft,
        KeyPress { code: KeyCode::Char('f'), mods: Mods::ALT } => Action::MoveWordRight,
        KeyPress { code: KeyCode::Char('a'), mods: Mods::CTRL } => Action::MoveStart,
        KeyPress { code: KeyCode::Char('e'), mods: Mods::CTRL } => Action::MoveEnd,
        KeyPress { code: KeyCode::Up, mods: Mods::NONE } => Action::HistoryPrev,
        KeyPress { code: KeyCode::Down, mods: Mods::NONE } => Action::HistoryNext,
        KeyPress { code: KeyCode::Char('p'), mods: Mods::CTRL } => Action::HistoryPrev,
        KeyPress { code: KeyCode::Char('n'), mods: Mods::CTRL } => Action::HistoryNext,
        KeyPress { code: KeyCode::Backspace, mods: Mods::NONE } => Action::DeleteBack,
        KeyPress { code: KeyCode::Delete, mods: Mods::NONE } => Action::DeleteForward,
        KeyPress { code: KeyCode::Backspace, mods: Mods::CTRL } => Action::DeleteWordBack,
        KeyPress { code: KeyCode::Backspace, mods: Mods::ALT } => Action::DeleteWordBack,
        KeyPress { code: KeyCode::Char('w'), mods: Mods::CTRL } => Action::DeleteWordBack,
        KeyPress { code: KeyCode::Delete, mods: Mods::CTRL } => Action::DeleteWordForward,
        KeyPress { code: KeyCode::Char('d'), mods: Mods::ALT } => Action::DeleteWordForward,
        KeyPress { code: KeyCode::Char('u'), mods: Mods::CTRL } => Action::KillToStart,
        KeyPress { code: KeyCode::Char('k'), mods: Mods::CTRL } => Action::KillToEnd,
        KeyPress { code: KeyCode::Char('z'), mods: Mods::CTRL } => Action::Undo,
        KeyPress { code: KeyCode::Char('_'), mods: Mods::CTRL } => Action::Undo,
        KeyPress { code: KeyCode::Char('y'), mods: Mods::CTRL } => Action::Redo,
        KeyPress { code: KeyCode::Char('c'), mods: Mods::CTRL } => Action::Interrupt,
        KeyPress { code: KeyCode::Char('d'), mods: Mods::CTRL } => Action::Eof,
        KeyPress { code: KeyCode::Char('l'), mods: Mods::CTRL } => Action::ClearScreen
    ]
}

impl View for Keymap {
    type V = Map<KeyPress, Action>;

    closed spec fn view(&self) -> Map<KeyPress, Action> {
        table(self.bindings@)
    }
}

impl Keymap {
    /// The table is consistent: no key twice, every key normalized.
    pub closed spec fn wf(&self) -> bool {
        well_formed_table(self.bindings@)
    }

    /// Every key of the table is in its normal form.
    pub proof fn law_bound_keys_are_normal(&self, k: KeyPress)
        requires
            self.wf(),
            self@.contains_key(k),
        ensures
            normal_form(k) == k,
    {
        let i = choose|i: int| 0 <= i < self.bindings@.len() && (#[trigger] self.bindings@[i]).0 == k;
    }

    /// The default bindings.
    #[verifier::rlimit(50)]
    pub fn new() -> (r: Self)
        ensures
            r.wf(),
            r@ == default_table(),
    {
        let mut map = Self::empty();
        map.bind(KeyPress::new(KeyCode::Enter, Mods::NONE), Action::Accept);
        map.bind(KeyPress::new(KeyCode::Tab, Mods::NONE), Action::Complete);
        map.bind(KeyPress::new(KeyCode::Escape, Mods::NONE), Action::Cancel);
        map.bind(KeyPress::new(KeyCode::Left, Mods::NONE), Action::MoveLeft);
        map.bind(KeyPress::new(KeyCode::Right, Mods::NONE), Action::MoveRight);
        map.bind(KeyPress::new(KeyCode::Home, Mods::NONE), Action::MoveStart);
        map.bind(KeyPress::new(KeyCode::End, Mods::NONE), Action::MoveEnd);
        map.bind(KeyPress::new(KeyCode::Left, Mods::CTRL), Action::MoveWordLeft);
        map.bind(KeyPress::new(KeyCode::Right, Mods::CTRL), Action::MoveWordRight);
        map.bind(KeyPress::new(KeyCode::Char('b'), Mods::ALT), Action::MoveWordLeft);
        map.bind(KeyPress::new(KeyCode::Char('f'), Mods::ALT), Action::MoveWordRight);
        map.bind(KeyPress::new(KeyCode::Char('a'), Mods::CTRL), Action::MoveStart);
        map.bind(KeyPress::new(KeyCode::Char('e'), Mods::CTRL), Action::MoveEnd);
        map.bind(KeyPress::new(KeyCode::Up, Mods::NONE), Action::HistoryPrev);
        map.bind(KeyPress::new(KeyCode::Down, Mods::NONE), Action::HistoryNext);
        map.bind(KeyPress::new(KeyCode::Char('p'), Mods::CTRL), Action::HistoryPrev);
        map.bind(KeyPress::new(KeyCode::Char('n'), Mods::CTRL), Action::HistoryNext);
        map.bind(KeyPress::new(KeyCode::Backspace, Mods::NONE), Action::DeleteBack);
        map.bind(KeyPress::new(KeyCode::Delete, Mods::NONE), Action::DeleteForward);
        map.bind(KeyPress::new(KeyCode::Backspace, Mods::CTRL), Action::DeleteWordBack);
        map.bind(KeyPress::new(KeyCode::Backspace, Mods::ALT), Action::DeleteWordBack);
        map.bind(KeyPress::new(KeyCode::Char('w'), Mods::CTRL), Action::DeleteWordBack);
        map.bind(KeyPress::new(KeyCode::Delete, Mods::CTRL), Action::DeleteWordForward);
        map.bind(KeyPress::new(KeyCode::Char('d'), Mods::ALT), Action::DeleteWordForward);
        map.bind(KeyPress::new(KeyCode::Char('u'), Mods::CTRL), Action::KillToStart);
        map.bind(KeyPress::new(KeyCode::Char('k'), Mods::CTRL), Action::KillToEnd);
        map.bind(KeyPress::new(KeyCode::Char('z'), Mods::CTRL), Action::Undo);
        map.bind(KeyPress::new(KeyCode::Char('_'), Mods::CTRL), Action::Undo);
        map.bind(KeyPress::new(KeyCode::Char('y'), Mods::CTRL), Action::Redo);
        map.bind(KeyPress::new(KeyCode::Char('c'), Mods::CTRL), Action::Interrupt);
        map.bind(KeyPress::new(KeyCode::Char('d'), Mods::CTRL), Action::Eof);
        map.bind(KeyPress::new(KeyCode::Char('l'), Mods::CTRL), Action::ClearScreen);
        assert(map@ =~= default_table());
        map
    }

    /// No bindings at all: printable keys still insert themselves, and
    /// nothing else does anything.
    pub fn empty() -> (r: Self)
        ensures
            r.wf(),
            r@ == Map::<KeyPress, Action>::empty(),
    {
        let r = Self { bindings: Vec::new() };
        assert(r@ =~= Map::<KeyPress, Action>::empty());
        r
    }

    /// The index of `key` in the table, if it is there.
    fn find(&self, key: KeyPress) -> (r: Option<usize>)
        requires
            self.wf(),
        ensures
            match r {
                Some(i) => i < self.bindings@.len() && self.bindings@[i as int].0 == key,
                None => !is_bound(self.bindings@, key),
            },
    {
        let mut i: usize = 0;
        while i < self.bindings.len()
            invariant
                i <= self.bindings@.len(),
                forall|j: int| 0 <= j < i ==> (#[trigger] self.bindings@[j]).0 != key,
            decreases self.bindings@.len() - i,
        {
            if self.bindings[i].0 == key {
                return Some(i);
            }
            i = i + 1;
        }
        None
    }

    /// Bind `key` (in its normal form) to `action`, replacing any binding
    /// it had.
    pub fn bind(&mut self, key: KeyPress, action: Action)
        requires
            old(self).wf(),
        ensures
            final(self).wf(),
            final(self)@ == old(self)@.insert(normal_form(key), action),
    {
        let key = key.normalized();
        proof {
            lemma_normalized_idempotent(key);
        }
        let ghost s = self.bindings@;
        match self.find(key) {
            Some(i) => {
                self.bindings.set(i, (key, action));
                proof {
                    let t = self.bindings@;
                    assert forall|k: KeyPress| #[trigger] table(t).contains_key(k) == table(s).insert(key, action).contains_key(k) by {
                        if k != key {
                            if is_bound(s, k) {
                                let j = choose|j: int| 0 <= j < s.len() && (#[trigger] s[j]).0 == k;
                                assert(t[j].0 == k);
                            }
                            if is_bound(t, k) {
                                let j = choose|j: int| 0 <= j < t.len() && (#[trigger] t[j]).0 == k;
                                assert(s[j].0 == k);
                            }
                        } else {
                            assert(t[i as int].0 == k);
                        }
                    }
                    assert forall|k: KeyPress| #[trigger] table(t).contains_key(k) implies table(t)[k] == table(s).insert(key, action)[k] by {
                        let j = choose|j: int| 0 <= j < t.len() && (#[trigger] t[j]).0 == k;
                        if k != key {
                            assert(s[j].0 == k);
                            let j2 = choose|j2: int| 0 <= j2 < s.len() && (#[trigger] s[j2]).0 == k;
                            assert(j == j2);
                        } else {
                            assert(t[i as int].0 == k);
                        }
                    }
                    assert(table(t) =~= table(s).insert(key, action));
                }
            },
            None => {
                self.bindings.push((key, action));
                proof {
                    let t = self.bindings@;
                    assert(t[s.len() as int].0 == key);
                    assert forall|k: KeyPress| #[trigger] table(t).contains_key(k) == table(s).insert(key, action).contains_key(k) by {
                        if is_bound(s, k) {
                            let j = choose|j: int| 0 <= j < s.len() && (#[trigger] s[j]).0 == k;
                            assert(t[j].0 == k);
                        }
                        if is_bound(t, k) && k != key {
                            let j = choose|j: int| 0 <= j < t.len() && (#[trigger] t[j]).0 == k;
                            assert(s[j].0 == k);
                        }
                    }
                    assert forall|k: KeyPress| #[trigger] table(t).contains_key(k) implies table(t)[k] == table(s).insert(key, action)[k] by {
                        let j = choose|j: int| 0 <= j < t.len() && (#[trigger] t[j]).0 == k;
                        if k != key {
                            assert(s[j].0 == k);
                            let j2 = choose|j2: int| 0 <= j2 < s.len() && (#[trigger] s[j2]).0 == k;
                            assert(j == j2);
                        }
                    }
                    assert(table(t) =~= table(s).insert(key, action));
                }
            },
        }
    }

    /// Remove any binding of `key` (in its normal form).
    pub fn unbind(&mut self, key: KeyPress)
        requires
            old(self).wf(),
        ensures
            final(self).wf(),
            final(self)@ == old(self)@.remove(normal_form(key)),
    {
        let key = key.normalized();
        let ghost s = self.bindings@;
        match self.find(key) {
            Some(i) => {
                self.bindings.remove(i);
                proof {
                    let t = self.bindings@;
                    assert forall|a: int, b: int|
                        0 <= a < t.len() && 0 <= b < t.len() && (#[trigger] t[a]).0 == (#[trigger] t[b]).0 implies a == b by {
                        let a2 = if a < i { a } else { a + 1 };
                        let b2 = if b < i { b } else { b + 1 };
                        assert(t[a] == s[a2]);
                        assert(t[b] == s[b2]);
                    }
                    assert forall|a: int| 0 <= a < t.len() implies normal_form((#[trigger] t[a]).0) == t[a].0 by {
                        let a2 = if a < i { a } else { a + 1 };
                        assert(t[a] == s[a2]);
                    }
                    assert forall|k: KeyPress| #[trigger] table(t).contains_key(k) == table(s).remove(key).contains_key(k) by {
                        if is_bound(s, k) && k != key {
                            let j = choose|j: int| 0 <= j < s.len() && (#[trigger] s[j]).0 == k;
                            assert(j != i);
                            let j2 = if j < i { j } else { j - 1 };
                            assert(t[j2].0 == k);
                        }
                        if is_bound(t, k) {
                            let j = choose|j: int| 0 <= j < t.len() && (#[trigger] t[j]).0 == k;
                            let j2 = if j < i { j } else { j + 1 };
                            assert(s[j2].0 == k);
                        }
                    }
                    assert forall|k: KeyPress| #[trigger] table(t).contains_key(k) implies table(t)[k] == table(s).remove(key)[k] by {
                        let j = choose|j: int| 0 <= j < t.len() && (#[trigger] t[j]).0 == k;
                        let jj = if j < i { j } else { j + 1 };
                        assert(s[jj].0 == k);
                        let j2 = choose|j2: int| 0 <= j2 < s.len() && (#[trigger] s[j2]).0 == k;
                        assert(jj == j2);
                    }
                    assert(table(t) =~= table(s).remove(key));
                }
            },
            None => {
                assert(table(s) =~= table(s).remove(key));
            },
        }
    }

    /// What `key` does.
    ///
    /// Falls back to inserting an unbound printable character, so a keymap
    /// only ever lists the exceptions.
    pub fn lookup(&self, key: KeyPress) -> (r: Action)
        requires
            self.wf(),
        ensures
            r == lookup_spec(self@, key),
    {
        let key = key.normalized();
        match self.find(key) {
            Some(i) => {
                proof {
                    let s = self.bindings@;
                    let j = choose|j: int| 0 <= j < s.len() && (#[trigger] s[j]).0 == key;
                    assert(j == i);
                }
                return self.bindings[i].1;
            },
            None => {},
        }
        match key.code {
            KeyCode::Char(c) => {
                if !is_control(c) && !key.mods.ctrl() && !key.mods.alt() {
                    Action::Insert(c)
                } else {
                    Action::Ignore
                }
            },
            _ => Action::Ignore,
        }
    }

    /// Every explicit binding, each key once, in no particular order.
    pub fn bindings(&self) -> (r: Vec<(KeyPress, Action)>)
        requires
            self.wf(),
        ensures
            well_formed_table(r@),
            table(r@) == self@,
    {
        let mut out: Vec<(KeyPress, Action)> = Vec::new();
        let mut i: usize = 0;
        while i < self.bindings.len()
            invariant
                i <= self.bindings@.len(),
                out@ == self.bindings@.take(i as int),
            decreases self.bindings@.len() - i,
        {
            let entry = self.bindings[i];
            out.push(entry);
            i = i + 1;
            assert(out@ =~= self.bindings@.take(i as int));
        }
        assert(out@ =~= self.bindings@);
        out
    }
}

/// A binding is what a lookup then finds, whatever form the key was bound in.
pub proof fn law_lookup_after_bind(m: Map<KeyPress, Action>, key: KeyPress, action: Action)
    ensures
        lookup_spec(m.insert(normal_form(key), action), key) == action,
{
}

/// Unbinding a key leaves it to the fallback: insert a plain printable
/// character, ignore anything else.
pub proof fn law_lookup_after_unbind(m: Map<KeyPress, Action>, key: KeyPress)
    ensures
        lookup_spec(m.remove(normal_form(key)), key) == lookup_spec(Map::empty(), key),
{
}

/// A key and its normal form mean the same thing.
pub proof fn law_lookup_normalizes(m: Map<KeyPress, Action>, key: KeyPress)
    ensures
        lookup_spec(m, normal_form(key)) == lookup_spec(m, key),
{
    lemma_normalized_idempotent(key);
}

/// The default keys do what the documented table says: Ctrl+A and Ctrl+E
/// go to the start and end, Ctrl+P and Ctrl+N walk history, Ctrl+W takes a
/// word back, Ctrl+U and Ctrl+K kill to the start and end, Ctrl+Z and
/// Ctrl+_ undo, Ctrl+Y redoes, Ctrl+C interrupts, Ctrl+D is end of input
/// and Ctrl+L clears the screen, each with the letter in either case and
/// with or without Shift; Alt+B and Alt+F move by word and Alt+D deletes
/// one forward; and the named keys do what they are named for.
#[verifier::rlimit(80)]
pub proof fn law_default_bindings_follow_the_documented_table(shift: bool)
    ensures
        lookup_spec(default_table(), KeyPress { code: KeyCode::Char('a'), mods: mods_of(shift, false, true) }) == Action::MoveStart,
        lookup_spec(default_table(), KeyPress { code: KeyCode::Char('A'), mods: mods_of(shift, false, true) }) == Action::MoveStart,
        lookup_spec(default_table(), KeyPress { code: KeyCode::Char('e'), mods: mods_of(shift, false, true) }) == Action::MoveEnd,
        lookup_spec(default_table(), KeyPress { code: KeyCode::Char('E'), mods: mods_of(shift, false, true) }) == Action::MoveEnd,
        lookup_spec(default_table(), KeyPress { code: KeyCode::Char('p'), mods: mods_of(shift, false, true) }) == Action::HistoryPrev,
        lookup_spec(default_table(), KeyPress { code: KeyCode::Char('P'), mods: mods_of(shift, false, true) }) == Action::HistoryPrev,
        lookup_spec(default_table(), KeyPress { code: KeyCode::Char('n'), mods: mods_of(shift, false, true) }) == Action::HistoryNext,
        lookup_spec(default_table(), KeyPress { code: KeyCode::Char('N'), mods: mods_of(shift, false, true) }) == Action::HistoryNext,
        lookup_spec(default_table(), KeyPress { code: KeyCode::Char('w'), mods: mods_of(shift, false, true) }) == Action::DeleteWordBack,
        lookup_spec(default_table(), KeyPress { code: KeyCode::Char('W'), mods: mods_of(shift, false, true) }) == Action::DeleteWordBack,
        lookup_spec(default_table(), KeyPress { code: KeyCode::Char('u'), mods: mods_of(shift, false, true) }) == Action::KillToStart,
        lookup_spec(default_table(), KeyPress { code: KeyCode::Char('U'), mods: mods_of(shift, false, true) }) == Action::KillToStart,
        lookup_spec(default_table(), KeyPress { code: KeyCode::Char('k'), mods: mods_of(shift, false, true) }) == Action::KillToEnd,
        lookup_spec(default_table(), KeyPress { code: KeyCode::Char('K'), mods: mods_of(shift, false, true) }) == Action::KillToEnd,
        lookup_spec(default_table(), KeyPress { code: KeyCode::Char('z'), mods: mods_of(shift, false, true) }) == Action::Undo,
        lookup_spec(default_table(), KeyPress { code: KeyCode::Char('Z'), mods: mods_of(shift, false, true) }) == Action::Undo,
        lookup_spec(default_table(), KeyPress { code: KeyCode::Char('y'), mods: mods_of(shift, false, true) }) == Action::Redo,
        lookup_spec(default_table(), KeyPress { code: KeyCode::Char('Y'), mods: mods_of(shift, false, true) }) == Action::Redo,
        lookup_spec(default_table(), KeyPress { code: KeyCode::Char('c'), mods: mods_of(shift, false, true) }) == Action::Interrupt,
        lookup_spec(default_table(), KeyPress { code: KeyCode::Char('C'), mods: mods_of(shift, false, true) }) == Action::Interrupt,
        lookup_spec(default_table(), KeyPress { code: KeyCode::Char('d'), mods: mods_of(shift, false, true) }) == Action::Eof,
        lookup_spec(default_table(), KeyPress { code: KeyCode::Char('D'), mods: mods_of(shift, false, true) }) == Action::Eof,
        lookup_spec(default_table(), KeyPress { code: KeyCode::Char('l'), mods: mods_of(shift, false, true) }) == Action::ClearScreen,
        lookup_spec(default_table(), KeyPress { code: KeyCode::Char('L'), mods: mods_of(shift, false, true) }) == Action::ClearScreen,
        lookup_spec(default_table(), KeyPress { code: KeyCode::Char('_'), mods: Mods::CTRL }) == Action::Undo,
        lookup_spec(default_table(), KeyPress { code: KeyCode::Char('b'), mods: Mods::ALT }) == Action::MoveWordLeft,
        lookup_spec(default_table(), KeyPress { code: KeyCode::Char('f'), mods: Mods::ALT }) == Action::MoveWordRight,
        lookup_spec(default_table(), KeyPress { code: KeyCode::Char('d'), mods: Mods::ALT }) == Action::DeleteWordForward,
        lookup_spec(default_table(), KeyPress { code: KeyCode::Enter, mods: Mods::NONE }) == Action::Accept,
        lookup_spec(default_table(), KeyPress { code: KeyCode::Tab, mods: Mods::NONE }) == Action::Complete,
        lookup_spec(default_table(), KeyPress { code: KeyCode::Escape, mods: Mods::NONE }) == Action::Cancel,
        lookup_spec(default_table(), KeyPress { code: KeyCode::Left, mods: Mods::NONE }) == Action::MoveLeft,
        lookup_spec(default_table(), KeyPress { code: KeyCode::Right, mods: Mods::NONE }) == Action::MoveRight,
        lookup_spec(default_table(), KeyPress { code: KeyCode::Home, mods: Mods::NONE }) == Action::MoveStart,
        lookup_spec(default_table(), KeyPress { code: KeyCode::End, mods: Mods::NONE }) == Action::MoveEnd,
        lookup_spec(default_table(), KeyPress { code: KeyCode::Up, mods: Mods::NONE }) == Action::HistoryPrev,
        lookup_spec(default_table(), KeyPress { code: KeyCode::Down, mods: Mods::NONE }) == Action::HistoryNext,
        lookup_spec(default_table(), KeyPress { code: KeyCode::Backspace, mods: Mods::NONE }) == Action::DeleteBack,
        lookup_spec(default_table(), KeyPress { code: KeyCode::Delete, mods: Mods::NONE }) == Action::DeleteForward,
        lookup_spec(default_table(), KeyPress { code: KeyCode::Left, mods: Mods::CTRL }) == Action::MoveWordLeft,
        lookup_spec(default_table(), KeyPress { code: KeyCode::Right, mods: Mods::CTRL }) == Action::MoveWordRight,
        lookup_spec(default_table(), KeyPress { code: KeyCode::Backspace, mods: Mods::CTRL }) == Action::DeleteWordBack,
        lookup_spec(default_table(), KeyPress { code: KeyCode::Backspace, mods: Mods::ALT }) == Action::DeleteWordBack,
        lookup_spec(default_table(), KeyPress { code: KeyCode::Delete, mods: Mods::CTRL }) == Action::DeleteWordForward,
{
}

} // verus!
