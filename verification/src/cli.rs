//! The command line of the program.

use vstd::prelude::*;
use vstd::string::*;

use crate::text;

verus! {

/// Address that is served unless another one is given.
pub const DEFAULT_ADDR: &'static str = "127.0.0.1:1337";

/// What the program is to do.
#[derive(Debug)]
pub enum Startup {
    /// Serve the address.
    Serve(String),
    /// Say how the program is used.
    Usage,
    /// Refuse an unknown flag.
    Unknown(String),
}

/// What a [`Startup`] holds.
pub enum StartupView {
    Serve(Seq<char>),
    Usage,
    Unknown(Seq<char>),
}

impl View for Startup {
    type V = StartupView;

    open spec fn view(&self) -> StartupView {
        match self {
            Startup::Serve(addr) => StartupView::Serve(addr@),
            Startup::Usage => StartupView::Usage,
            Startup::Unknown(flag) => StartupView::Unknown(flag@),
        }
    }
}

/// What the arguments from index `i` on ask for, when `addr` is the address so
/// far: the first argument that is neither an address flag nor the value of one
/// decides.
pub open spec fn startup_from(args: Seq<Seq<char>>, i: int, addr: Seq<char>) -> StartupView
    decreases args.len() - i,
{
    if i < 0 || i >= args.len() {
        StartupView::Serve(addr)
    } else if args[i] == "--addr"@ || args[i] == "-a"@ {
        if i + 1 < args.len() {
            startup_from(args, i + 2, args[i + 1])
        } else {
            StartupView::Serve(addr)
        }
    } else if args[i] == "-h"@ || args[i] == "--help"@ {
        StartupView::Usage
    } else {
        StartupView::Unknown(args[i])
    }
}

/// What the arguments ask for.
pub open spec fn startup_of(args: Seq<Seq<char>>) -> StartupView {
    startup_from(args, 0, DEFAULT_ADDR@)
}

/// Reads the arguments.
pub fn parse_args(args: &Vec<String>) -> (r: Startup)
    ensures
        r@ == startup_of(text::texts(args@)),
{
    let ghost all = text::texts(args@);
    let n: usize = args.len();
    let mut addr: String = String::from_str(DEFAULT_ADDR);
    let mut i: usize = 0;
    while i < n
        invariant
            n == args@.len(),
            all == text::texts(args@),
            i <= n,
            startup_of(all) == startup_from(all, i as int, addr@),
        decreases n - i,
    {
        let word: Vec<char> = text::to_chars(args[i].as_str());
        assert(word@ == all[i as int]);
        if text::same_text(word.as_slice(), "--addr") || text::same_text(word.as_slice(), "-a") {
            if n - i > 1 {
                addr = args[i + 1].clone();
                assert(addr@ == all[i + 1]);
                i = i + 2;
            } else {
                i = i + 1;
            }
        } else if text::same_text(word.as_slice(), "-h") || text::same_text(
            word.as_slice(),
            "--help",
        ) {
            return Startup::Usage;
        } else {
            return Startup::Unknown(args[i].clone());
        }
    }
    Startup::Serve(addr)
}

/// Without arguments the program serves port 1337 of this machine; an address
/// flag makes it serve the address behind the flag, and the last such flag
/// counts. A flag without an address behind it changes nothing.
pub proof fn law_address_flags(args: Seq<Seq<char>>, flag: Seq<char>, addr: Seq<char>)
    requires
        flag == "--addr"@ || flag == "-a"@,
    ensures
        startup_of(Seq::empty()) == StartupView::Serve("127.0.0.1:1337"@),
        startup_of(seq![flag]) == StartupView::Serve("127.0.0.1:1337"@),
        startup_of(seq![flag, addr]) == StartupView::Serve(addr),
        startup_of(args) is Serve && args.len() % 2 == 0 ==> startup_of(
            args.push(flag).push(addr),
        ) == StartupView::Serve(addr),
{
    let two = seq![flag, addr];
    assert(two[0] == flag && two[1] == addr);
    assert(startup_from(two, 2, addr) == StartupView::Serve(addr));
    let one = seq![flag];
    assert(one[0] == flag);
    if startup_of(args) is Serve && args.len() % 2 == 0 {
        lemma_last_address(args, flag, addr, 0, DEFAULT_ADDR@);
    }
}

proof fn lemma_last_address(
    args: Seq<Seq<char>>,
    flag: Seq<char>,
    addr: Seq<char>,
    i: int,
    so_far: Seq<char>,
)
    requires
        flag == "--addr"@ || flag == "-a"@,
        0 <= i <= args.len(),
        (args.len() - i) % 2 == 0,
        startup_from(args, i, so_far) is Serve,
    ensures
        startup_from(args.push(flag).push(addr), i, so_far) == StartupView::Serve(addr),
    decreases args.len() - i,
{
    let more = args.push(flag).push(addr);
    if i < args.len() {
        assert(more[i] == args[i] && more[i + 1] == args[i + 1]);
        lemma_last_address(args, flag, addr, i + 2, args[i + 1]);
    } else {
        assert(more[i] == flag && more[i + 1] == addr);
        assert(startup_from(more, i + 2, addr) == StartupView::Serve(addr));
    }
}

/// A help flag asks how the program is used, and any other first argument is
/// refused; so are they behind address flags with their addresses.
pub proof fn law_other_flags(args: Seq<Seq<char>>, flag: Seq<char>, addr: Seq<char>)
    requires
        flag == "--addr"@ || flag == "-a"@,
    ensures
        args.len() > 0 && (args[0] == "-h"@ || args[0] == "--help"@) ==> startup_of(args) is Usage,
        args.len() > 0 && args[0] != "-h"@ && args[0] != "--help"@ && args[0] != "--addr"@ && args[0]
            != "-a"@ ==> startup_of(args) == StartupView::Unknown(args[0]),
        startup_of(args) is Usage ==> startup_of(seq![flag, addr] + args) is Usage,
        startup_of(args) matches StartupView::Unknown(x) ==> startup_of(seq![flag, addr] + args)
            == StartupView::Unknown(x),
{
    reveal_strlit("-h");
    reveal_strlit("--help");
    reveal_strlit("--addr");
    reveal_strlit("-a");
    assert("-h"@[1] == 'h' && "-a"@[1] == 'a' && "--help"@[2] == 'h' && "--addr"@[2] == 'a');
    let more = seq![flag, addr] + args;
    assert(more[0] == flag && more[1] == addr);
    lemma_shifted(args, flag, addr, 0, DEFAULT_ADDR@, addr);
}

proof fn lemma_shifted(
    args: Seq<Seq<char>>,
    flag: Seq<char>,
    addr: Seq<char>,
    i: int,
    a: Seq<char>,
    b: Seq<char>,
)
    requires
        0 <= i,
    ensures
        ({
            let x = startup_from(args, i, a);
            let y = startup_from(seq![flag, addr] + args, i + 2, b);
            &&& x is Usage ==> y is Usage
            &&& x matches StartupView::Unknown(w) ==> y == StartupView::Unknown(w)
        }),
    decreases args.len() - i,
{
    let more = seq![flag, addr] + args;
    if i < args.len() {
        assert(more[i + 2] == args[i]);
        if args[i] == "--addr"@ || args[i] == "-a"@ {
            if i + 1 < args.len() {
                assert(more[i + 3] == args[i + 1]);
                lemma_shifted(args, flag, addr, i + 2, args[i + 1], args[i + 1]);
            }
        }
    }
}

} // verus!
