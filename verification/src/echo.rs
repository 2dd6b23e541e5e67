//! Argument parsing and output assembly for echoing a line of text.
//!
//! Arguments that start with `-` are flags.  A flag is scanned character
//! by character: `h` asks for the help text, `v` for the version, `n`
//! turns the trailing newline off, a second leading `-` makes the whole
//! word a long flag (`--help`, `--version`), and any other character
//! stops the scan of that flag.  The words are then joined with single
//! spaces, with one newline at the end unless it was turned off.

use vstd::prelude::*;

verus! {

use crate::text::{str_eq_str, views_of};
use vstd::pervasive::unreached;
use vstd::string::{StrSliceExecFns, StringExecFns};

/// How the output is to be printed.
#[derive(PartialEq, Debug)]
pub struct Options {
    /// Whether a newline should be written at the end of the output.
    pub trailing_newline: bool,
    /// The words to print.
    pub args: Vec<String>,
}

impl Default for Options {
    /// By default a trailing newline is written and there are no words.
    fn default() -> (r: Self)
        ensures
            r.trailing_newline == true,
            r.args@.len() == 0,
    {
        Options { trailing_newline: true, args: Vec::new() }
    }
}

/// A request to print something other than the arguments.
#[derive(Clone, Copy, PartialEq, Eq, Structural, Debug)]
pub enum EchoDirective {
    /// Print the help text and stop.
    Help,
    /// Print the version number and stop.
    Version,
}

/// The overall result of parsing a command line.
#[derive(PartialEq, Debug)]
pub enum ParsedArgs {
    /// Print the words according to the options.
    Print(Options),
    /// Print the help text instead.
    Help,
    /// Print the version number instead.
    Version,
}

/// What a long flag asks for.  The flag is the whole word with its first
/// `-` removed; the rest after the second `-` must be the entire word
/// `help` or `version` for the flag to mean anything.
pub open spec fn long_flag_action(f: Seq<char>) -> Option<EchoDirective> {
    if f.skip(1) == seq!['h', 'e', 'l', 'p'] {
        Some(EchoDirective::Help)
    } else if f.skip(1) == seq!['v', 'e', 'r', 's', 'i', 'o', 'n'] {
        Some(EchoDirective::Version)
    } else {
        Option::None
    }
}

/// Where the scan of the command line stands after some of it has been
/// processed.
pub enum ParseStep {
    /// Scanning ran through; the payload is the trailing-newline setting.
    Done(bool),
    /// A flag asked for the help text or the version number.
    Stop(EchoDirective),
    /// The scan would reach a `-` inside a flag that does not start with
    /// `-`; stripping the long-flag prefix is then impossible.
    Panic,
}

/// Scans one flag from character `i` on.  `f` is the word with its first
/// `-` removed; `nl` is the trailing-newline setting so far.
pub open spec fn scan_flag(f: Seq<char>, i: int, nl: bool) -> ParseStep
    decreases f.len() - i,
{
    if i < 0 || i >= f.len() {
        ParseStep::Done(nl)
    } else if f[i] == 'h' {
        ParseStep::Stop(EchoDirective::Help)
    } else if f[i] == 'v' {
        ParseStep::Stop(EchoDirective::Version)
    } else if f[i] == 'n' {
        scan_flag(f, i + 1, false)
    } else if f[i] == '-' {
        if f[0] != '-' {
            ParseStep::Panic
        } else {
            match long_flag_action(f) {
                Some(EchoDirective::Help) => ParseStep::Stop(EchoDirective::Help),
                Some(EchoDirective::Version) => ParseStep::Stop(EchoDirective::Version),
                Option::None => scan_flag(f, i + 1, nl),
            }
        }
    } else {
        ParseStep::Done(nl)
    }
}

/// An argument that is treated as a flag: it starts with `-`.
pub open spec fn arg_is_flag(a: Seq<char>) -> bool {
    a.len() >= 1 && a[0] == '-'
}

/// Scans the arguments from position `j` on, threading the
/// trailing-newline setting through the flags in order.
pub open spec fn scan_args(args: Seq<Seq<char>>, j: int, nl: bool) -> ParseStep
    decreases args.len() - j,
{
    if j < 0 || j >= args.len() {
        ParseStep::Done(nl)
    } else if !arg_is_flag(args[j]) {
        scan_args(args, j + 1, nl)
    } else {
        match scan_flag(args[j].drop_first(), 0, nl) {
            ParseStep::Done(nl2) => scan_args(args, j + 1, nl2),
            ParseStep::Stop(d) => ParseStep::Stop(d),
            ParseStep::Panic => ParseStep::Panic,
        }
    }
}

/// The outcome of scanning a whole command line.
pub open spec fn echo_parse_outcome(args: Seq<Seq<char>>) -> ParseStep {
    scan_args(args, 0, true)
}

/// Handles one long flag: the word with its first `-` removed, which
/// must still start with `-`.  Asks for the help text or the version
/// number when the rest of the word is exactly `help` or `version`, and
/// for nothing otherwise.  The options are left untouched.
pub fn parse_long_arg(options: &mut Options, flag: &str) -> (r: Option<EchoDirective>)
    requires
        flag@.len() >= 1,
        flag@[0] == '-',
    ensures
        *final(options) == *old(options),
        r == long_flag_action(flag@),
{
    let len = flag.unicode_len();
    let rest = flag.substring_char(1, len);
    proof {
        reveal_strlit("help");
        reveal_strlit("version");
        assert("help"@ =~= seq!['h', 'e', 'l', 'p']);
        assert("version"@ =~= seq!['v', 'e', 'r', 's', 'i', 'o', 'n']);
        assert(rest@ =~= flag@.skip(1));
    }
    if str_eq_str(rest, "help") {
        Some(EchoDirective::Help)
    } else if str_eq_str(rest, "version") {
        Some(EchoDirective::Version)
    } else {
        Option::None
    }
}

/// Decides whether scanning this command line would reach the
/// impossible long-flag strip — the one condition, besides an empty
/// argument, under which `parse_args` cannot be called.  A caller that
/// checks this first may hand any command line of nonempty arguments to
/// `parse_args`.
pub fn scan_would_panic(args: &Vec<String>) -> (r: bool)
    requires
        forall|k: int| 0 <= k < args@.len() ==> #[trigger] args@[k]@.len() >= 1,
    ensures
        r == (echo_parse_outcome(views_of(args@)) == ParseStep::Panic),
{
    let ghost av = views_of(args@);
    let mut scratch = Options::default();
    let mut nl = true;
    let mut j: usize = 0;
    while j < args.len()
        invariant
            0 <= j <= args@.len(),
            av == views_of(args@),
            forall|k: int| 0 <= k < args@.len() ==> #[trigger] args@[k]@.len() >= 1,
            scan_args(av, 0, true) == scan_args(av, j as int, nl),
        decreases args@.len() - j,
    {
        let a: &String = &args[j];
        let alen = a.as_str().unicode_len();
        let first = a.as_str().get_char(0);
        if first == '-' {
            let ghost f = av[j as int].drop_first();
            let ghost nl0 = nl;
            proof {
                assert(av[j as int] == args@[j as int]@);
                assert(arg_is_flag(av[j as int]));
                assert(f.len() == alen - 1);
            }
            let flen = alen - 1;
            let mut i: usize = 0;
            let mut halted = false;
            while !halted && i < flen
                invariant
                    0 <= i <= flen,
                    j < args@.len(),
                    av == views_of(args@),
                    a@ == args@[j as int]@,
                    alen == a@.len(),
                    flen == alen - 1,
                    f == av[j as int].drop_first(),
                    arg_is_flag(av[j as int]),
                    f.len() == flen,
                    scan_args(av, 0, true) == scan_args(av, j as int, nl0),
                    !halted ==> scan_flag(f, 0, nl0) == scan_flag(f, i as int, nl),
                    halted ==> scan_flag(f, 0, nl0) == ParseStep::Done(nl),
                decreases flen - i, (if halted {
                    0int
                } else {
                    1int
                }),
            {
                let c = a.as_str().get_char(i + 1);
                proof {
                    assert(c == f[i as int]);
                }
                if c == '-' {
                    if a.as_str().get_char(1) != '-' {
                        proof {
                            assert(f[0] != '-');
                            assert(scan_flag(f, i as int, nl) == ParseStep::Panic);
                            assert(scan_args(av, j as int, nl0) == ParseStep::Panic);
                        }
                        return true;
                    }
                    let flagstr = a.as_str().substring_char(1, alen);
                    proof {
                        assert(flagstr@ =~= f);
                        assert(f[0] == '-');
                    }
                    match parse_long_arg(&mut scratch, flagstr) {
                        Some(d) => {
                            proof {
                                assert(scan_flag(f, i as int, nl) == ParseStep::Stop(d));
                                assert(scan_args(av, j as int, nl0) == ParseStep::Stop(d));
                            }
                            return false;
                        },
                        Option::None => {
                            i = i + 1;
                        },
                    }
                } else if c == 'h' {
                    proof {
                        assert(scan_flag(f, i as int, nl) == ParseStep::Stop(EchoDirective::Help));
                        assert(scan_args(av, j as int, nl0) == ParseStep::Stop(
                            EchoDirective::Help,
                        ));
                    }
                    return false;
                } else if c == 'v' {
                    proof {
                        assert(scan_flag(f, i as int, nl) == ParseStep::Stop(
                            EchoDirective::Version,
                        ));
                        assert(scan_args(av, j as int, nl0) == ParseStep::Stop(
                            EchoDirective::Version,
                        ));
                    }
                    return false;
                } else if c == 'n' {
                    nl = false;
                    i = i + 1;
                } else {
                    halted = true;
                }
            }
            proof {
                assert(scan_flag(f, 0, nl0) == ParseStep::Done(nl));
                assert(scan_args(av, j as int, nl0) == scan_args(av, j as int + 1, nl));
            }
            j = j + 1;
        } else {
            proof {
                assert(av[j as int] == args@[j as int]@);
                assert(!arg_is_flag(av[j as int]));
                assert(scan_args(av, j as int, nl) == scan_args(av, j as int + 1, nl));
            }
            j = j + 1;
        }
    }
    proof {
        assert(scan_args(av, j as int, nl) == ParseStep::Done(nl));
    }
    false
}

/// Parses a command line into printing options or a directive.
///
/// Every argument must be nonempty, and the command line must not drive
/// the flag scan into the impossible long-flag strip (`Panic`).  When
/// the trailing newline was turned off, the first argument is dropped
/// from the words to print, whichever argument it was.
pub fn parse_args(args: Vec<String>) -> (r: ParsedArgs)
    requires
        forall|k: int| 0 <= k < args@.len() ==> #[trigger] args@[k]@.len() >= 1,
        echo_parse_outcome(views_of(args@)) != ParseStep::Panic,
    ensures
        (echo_parse_outcome(views_of(args@)) matches ParseStep::Done(nl) ==> (
        r matches ParsedArgs::Print(o) && o.trailing_newline == nl && views_of(o.args@) == (if nl {
            views_of(args@)
        } else {
            views_of(args@).drop_first()
        }))),
        echo_parse_outcome(views_of(args@)) == ParseStep::Stop(EchoDirective::Help) ==> r
            == ParsedArgs::Help,
        echo_parse_outcome(views_of(args@)) == ParseStep::Stop(EchoDirective::Version) ==> r
            == ParsedArgs::Version,
{
    let ghost av = views_of(args@);
    let mut options = Options::default();
    let mut j: usize = 0;
    while j < args.len()
        invariant
            0 <= j <= args@.len(),
            av == views_of(args@),
            forall|k: int| 0 <= k < args@.len() ==> #[trigger] args@[k]@.len() >= 1,
            scan_args(av, 0, true) != ParseStep::Panic,
            scan_args(av, 0, true) == scan_args(av, j as int, options.trailing_newline),
            options.args@.len() == 0,
        decreases args@.len() - j,
    {
        let a: &String = &args[j];
        let alen = a.as_str().unicode_len();
        let first = a.as_str().get_char(0);
        if first == '-' {
            let ghost f = av[j as int].drop_first();
            let ghost nl0 = options.trailing_newline;
            proof {
                assert(av[j as int] == args@[j as int]@);
                assert(arg_is_flag(av[j as int]));
                assert(f.len() == alen - 1);
            }
            let flen = alen - 1;
            let mut i: usize = 0;
            let mut halted = false;
            while !halted && i < flen
                invariant
                    0 <= i <= flen,
                    j < args@.len(),
                    av == views_of(args@),
                    a@ == args@[j as int]@,
                    alen == a@.len(),
                    flen == alen - 1,
                    f == av[j as int].drop_first(),
                    arg_is_flag(av[j as int]),
                    f.len() == flen,
                    scan_args(av, 0, true) != ParseStep::Panic,
                    scan_args(av, 0, true) == scan_args(av, j as int, nl0),
                    !halted ==> scan_flag(f, 0, nl0) == scan_flag(
                        f,
                        i as int,
                        options.trailing_newline,
                    ),
                    halted ==> scan_flag(f, 0, nl0) == ParseStep::Done(options.trailing_newline),
                    options.args@.len() == 0,
                decreases flen - i, (if halted {
                    0int
                } else {
                    1int
                }),
            {
                let c = a.as_str().get_char(i + 1);
                proof {
                    assert(c == f[i as int]);
                }
                if c == '-' {
                    if a.as_str().get_char(1) != '-' {
                        proof {
                            assert(f[0] != '-');
                            assert(scan_flag(f, i as int, options.trailing_newline)
                                == ParseStep::Panic);
                            assert(scan_args(av, j as int, nl0) == ParseStep::Panic);
                            assert(false);
                        }
                        return unreached();
                    }
                    let flagstr = a.as_str().substring_char(1, alen);
                    proof {
                        assert(flagstr@ =~= f);
                        assert(f[0] == '-');
                    }
                    match parse_long_arg(&mut options, flagstr) {
                        Some(EchoDirective::Help) => {
                            proof {
                                assert(scan_flag(f, i as int, options.trailing_newline)
                                    == ParseStep::Stop(EchoDirective::Help));
                                assert(scan_args(av, j as int, nl0) == ParseStep::Stop(
                                    EchoDirective::Help,
                                ));
                            }
                            return ParsedArgs::Help;
                        },
                        Some(EchoDirective::Version) => {
                            proof {
                                assert(scan_flag(f, i as int, options.trailing_newline)
                                    == ParseStep::Stop(EchoDirective::Version));
                                assert(scan_args(av, j as int, nl0) == ParseStep::Stop(
                                    EchoDirective::Version,
                                ));
                            }
                            return ParsedArgs::Version;
                        },
                        Option::None => {
                            i = i + 1;
                        },
                    }
                } else if c == 'h' {
                    proof {
                        assert(scan_flag(f, i as int, options.trailing_newline) == ParseStep::Stop(
                            EchoDirective::Help,
                        ));
                        assert(scan_args(av, j as int, nl0) == ParseStep::Stop(
                            EchoDirective::Help,
                        ));
                    }
                    return ParsedArgs::Help;
                } else if c == 'v' {
                    proof {
                        assert(scan_flag(f, i as int, options.trailing_newline) == ParseStep::Stop(
                            EchoDirective::Version,
                        ));
                        assert(scan_args(av, j as int, nl0) == ParseStep::Stop(
                            EchoDirective::Version,
                        ));
                    }
                    return ParsedArgs::Version;
                } else if c == 'n' {
                    options.trailing_newline = false;
                    i = i + 1;
                } else {
                    halted = true;
                }
            }
            proof {
                assert(scan_flag(f, 0, nl0) == ParseStep::Done(options.trailing_newline));
                assert(scan_args(av, j as int, nl0) == scan_args(
                    av,
                    j as int + 1,
                    options.trailing_newline,
                ));
            }
            j = j + 1;
        } else {
            proof {
                assert(av[j as int] == args@[j as int]@);
                assert(!arg_is_flag(av[j as int]));
                assert(scan_args(av, j as int, options.trailing_newline) == scan_args(
                    av,
                    j as int + 1,
                    options.trailing_newline,
                ));
            }
            j = j + 1;
        }
    }
    proof {
        assert(scan_args(av, j as int, options.trailing_newline) == ParseStep::Done(
            options.trailing_newline,
        ));
    }
    let mut argv = args;
    if !options.trailing_newline {
        proof {
            if av.len() == 0 {
                assert(scan_args(av, 0, true) == ParseStep::Done(true));
            }
        }
        argv.remove(0);
        proof {
            assert(views_of(argv@) =~= av.drop_first());
        }
    }
    options.args = argv;
    ParsedArgs::Print(options)
}

/// The words joined by single spaces.
pub open spec fn joined_args(args: Seq<Seq<char>>) -> Seq<char>
    decreases args.len(),
{
    if args.len() == 0 {
        Seq::empty()
    } else if args.len() == 1 {
        args[0]
    } else {
        args[0] + seq![' '] + joined_args(args.drop_first())
    }
}

/// Appending one more word extends the joined text by a space and that
/// word (or is just the word, when there was nothing yet).
proof fn lemma_joined_args_push(args: Seq<Seq<char>>, x: Seq<char>)
    ensures
        joined_args(args.push(x)) == if args.len() == 0 {
            x
        } else {
            joined_args(args) + seq![' '] + x
        },
    decreases args.len(),
{
    if args.len() == 0 {
        assert(args.push(x).len() == 1);
        assert(args.push(x)[0] == x);
    } else {
        lemma_joined_args_push(args.drop_first(), x);
        assert(args.push(x).drop_first() =~= args.drop_first().push(x));
        if args.len() == 1 {
            assert(args.drop_first().len() == 0);
        }
    }
}

/// Renders the output: the words joined by single spaces, with one
/// newline at the end when the trailing newline is on.  There must be at
/// least one word.
pub fn print_content(options: Options) -> (r: String)
    requires
        options.args@.len() >= 1,
    ensures
        r@ == joined_args(views_of(options.args@)) + if options.trailing_newline {
            seq!['\n']
        } else {
            Seq::<char>::empty()
        },
{
    let ghost av = views_of(options.args@);
    let mut out = String::new();
    let last_index = options.args.len() - 1;
    let mut i: usize = 0;
    while i < options.args.len()
        invariant
            0 <= i <= options.args@.len(),
            av == views_of(options.args@),
            av.len() == options.args@.len(),
            last_index == av.len() - 1,
            i == 0 ==> out@ == Seq::<char>::empty(),
            0 < i < av.len() ==> out@ == joined_args(av.take(i as int)) + seq![' '],
            i == av.len() ==> out@ == joined_args(av),
        decreases av.len() - i,
    {
        out.append(options.args[i].as_str());
        proof {
            assert(av.take(i as int).push(av[i as int]) =~= av.take(i as int + 1));
            lemma_joined_args_push(av.take(i as int), av[i as int]);
            if i as int + 1 == av.len() {
                assert(av.take(i as int + 1) =~= av);
            }
        }
        if i < last_index {
            out.append(" ");
            proof {
                reveal_strlit(" ");
                assert(" "@ =~= seq![' ']);
            }
        }
        i = i + 1;
    }
    if options.trailing_newline {
        out.append("\n");
        proof {
            reveal_strlit("\n");
            assert(out@ =~= joined_args(av) + seq!['\n']);
        }
    }
    out
}

} // verus!
