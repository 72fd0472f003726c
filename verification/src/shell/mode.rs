//! Which front end the shell starts with, from its command line.

use vstd::prelude::*;

verus! {

/// The shell's front ends.
#[derive(Clone, Copy, PartialEq, Eq, Debug, Structural)]
pub enum ShellMode {
    /// Full screen.
    Tui,
    /// A plain line prompt.
    Lite,
    /// No front end: the processor runs on its own.
    Headless,
}

/// The mode a `--shell` argument names; anything unrecognised is the full
/// screen.
pub open spec fn mode_named(name: Seq<char>) -> ShellMode {
    if name == seq!['l', 'i', 't', 'e'] {
        ShellMode::Lite
    } else if name == seq!['n', 'o', 'n', 'e'] {
        ShellMode::Headless
    } else {
        ShellMode::Tui
    }
}

/// The mode the first `n` arguments select: the last `--shell` among them
/// that has an argument after it decides, and the full screen is the
/// default.
pub open spec fn mode_spec(args: Seq<Seq<char>>, n: nat) -> ShellMode
    decreases n,
{
    if n == 0 {
        ShellMode::Tui
    } else {
        let i = n - 1;
        if args[i] == seq!['-', '-', 's', 'h', 'e', 'l', 'l'] && i + 1 < args.len() {
            mode_named(args[i + 1])
        } else {
            mode_spec(args, (n - 1) as nat)
        }
    }
}

fn same(a: &str, b: &str) -> (r: bool)
    ensures
        r == (a@ == b@),
{
    let x = crate::text::chars_of(a);
    let y = crate::text::chars_of(b);
    if x.len() != y.len() {
        return false;
    }
    let mut i: usize = 0;
    while i < x.len()
        invariant
            x@ == a@,
            y@ == b@,
            x@.len() == y@.len(),
            i <= x@.len(),
            forall|j: int| 0 <= j < i ==> x@[j] == y@[j],
        decreases x@.len() - i,
    {
        if x[i] != y[i] {
            return false;
        }
        i = i + 1;
    }
    assert(x@ =~= y@);
    true
}

/// The mode the command line asks for.
pub fn parse_mode(args: &[String]) -> (r: ShellMode)
    ensures
        r == mode_spec(args@.map_values(|a: String| a@), args@.len()),
{
    let ghost all = args@.map_values(|a: String| a@);
    proof {
        reveal_strlit("--shell");
        reveal_strlit("lite");
        reveal_strlit("none");
        assert("--shell"@ =~= seq!['-', '-', 's', 'h', 'e', 'l', 'l']);
        assert("lite"@ =~= seq!['l', 'i', 't', 'e']);
        assert("none"@ =~= seq!['n', 'o', 'n', 'e']);
    }
    let mut mode = ShellMode::Tui;
    let mut i: usize = 0;
    while i < args.len()
        invariant
            i <= args@.len(),
            all == args@.map_values(|a: String| a@),
            "--shell"@ == seq!['-', '-', 's', 'h', 'e', 'l', 'l'],
            "lite"@ == seq!['l', 'i', 't', 'e'],
            "none"@ == seq!['n', 'o', 'n', 'e'],
            mode == mode_spec(all, i as nat),
        decreases args@.len() - i,
    {
        assert(all[i as int] == args@[i as int]@);
        if same(args[i].as_str(), "--shell") && i + 1 < args.len() {
            assert(all[i + 1] == args@[i + 1]@);
            let name = args[i + 1].as_str();
            mode = if same(name, "lite") {
                ShellMode::Lite
            } else if same(name, "none") {
                ShellMode::Headless
            } else {
                ShellMode::Tui
            };
        }
        i = i + 1;
    }
    mode
}

} // verus!
