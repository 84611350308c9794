//! The command line.
//!
//! ```text
//! rnidbg exec --bin <path> [--] [args...]
//! rnidbg jni  --so <path> [--onload] [--call <Java_symbol>]
//! ```
use vstd::prelude::*;
use crate::linux::syscalls::open::{host_path, under_base};
use crate::text::{begins_with, join2, join3, starts_with, str_eq};

verus! {

/// What is wrong with a command line.
#[derive(Debug)]
pub enum CliError {
    UnknownCommand(String),
    /// The flag is not there.
    Missing(String),
    /// No path follows the flag.
    NeedsPath(String),
    /// No symbol follows the flag.
    NeedsSymbol(String),
}

impl CliError {
    /// The message for a fault.
    pub open spec fn text(self) -> Seq<char> {
        match self {
            CliError::UnknownCommand(c) => "unknown command '"@ + c@ + "'"@,
            CliError::Missing(flag) => "missing "@ + flag@,
            CliError::NeedsPath(flag) => flag@ + " requires a path"@,
            CliError::NeedsSymbol(flag) => flag@ + " requires a symbol name"@,
        }
    }

    pub fn message(&self) -> (r: String)
        ensures
            r@ == self.text(),
    {
        match self {
            CliError::UnknownCommand(c) => join3("unknown command '", c.as_str(), "'"),
            CliError::Missing(flag) => join2("missing ", flag.as_str()),
            CliError::NeedsPath(flag) => join2(flag.as_str(), " requires a path"),
            CliError::NeedsSymbol(flag) => join2(flag.as_str(), " requires a symbol name"),
        }
    }
}

/// What strings say.
pub open spec fn texts(s: Seq<String>) -> Seq<Seq<char>> {
    Seq::new(s.len(), |i: int| s[i]@)
}

/// Where `flag` first stands, from position `from` on.
pub open spec fn flag_at(args: Seq<Seq<char>>, flag: Seq<char>, from: int) -> Option<int>
    decreases args.len() - from,
{
    if from < 0 || from >= args.len() {
        None
    } else if args[from] == flag {
        Some(from)
    } else {
        flag_at(args, flag, from + 1)
    }
}

/// The value of a flag that may be missing, or nothing where a flag has no value: what
/// follows its first occurrence, unless that looks like a flag.
pub open spec fn optional_value(args: Seq<Seq<char>>, flag: Seq<char>) -> Result<
    Option<Seq<char>>,
    (),
> {
    match flag_at(args, flag, 0) {
        None => Ok(None),
        Some(i) => if i + 1 < args.len() && !begins_with(args[i + 1], "--"@) {
            Ok(Some(args[i + 1]))
        } else {
            Err(())
        },
    }
}

/// Where `flag` first stands.
fn find_flag(args: &Vec<String>, flag: &str) -> (r: Option<usize>)
    ensures
        match flag_at(texts(args@), flag@, 0) {
            Some(i) => r == Some(i as usize) && i < args@.len() && 0 <= i,
            None => r is None,
        },
{
    let n: usize = args.len();
    let mut i: usize = 0;
    while i < n
        invariant
            i <= n,
            n == args@.len(),
            flag_at(texts(args@), flag@, 0) == flag_at(texts(args@), flag@, i as int),
        decreases n - i,
    {
        if str_eq(args[i].as_str(), flag) {
            return Some(i);
        }
        i = i + 1;
    }
    None
}

/// The value of a flag that may be missing.
pub fn parse_optional_flag(args: &Vec<String>, flag: &str) -> (r: Result<Option<String>, CliError>)
    ensures
        match optional_value(texts(args@), flag@) {
            Ok(None) => r matches Ok(None),
            Ok(Some(v)) => r matches Ok(Some(s)) && s@ == v,
            Err(_) => r matches Err(CliError::NeedsSymbol(f)) && f@ == flag@,
        },
{
    match find_flag(args, flag) {
        None => Ok(None),
        Some(i) => {
            if i >= args.len() - 1 {
                return Err(CliError::NeedsSymbol(flag.to_owned()));
            }
            let value = args[i + 1].as_str();
            if starts_with(value, "--") {
                return Err(CliError::NeedsSymbol(flag.to_owned()));
            }
            Ok(Some(value.to_owned()))
        },
    }
}

/// How far the reading of a command line has come.
pub struct Scan {
    pub path: Option<Seq<char>>,
    pub rest: Seq<Seq<char>>,
    /// The flag stood last, without a path.
    pub broken: bool,
}

/// Read the arguments from position `i` on: each occurrence of the flag takes the
/// argument after it as the path, two dashes hand over everything after them, and all
/// else is handed over.
pub open spec fn scan(args: Seq<Seq<char>>, flag: Seq<char>, i: int, so_far: Scan) -> Scan
    decreases args.len() - i,
{
    if i < 0 || i >= args.len() {
        so_far
    } else if args[i] == flag {
        if i + 1 < args.len() {
            scan(args, flag, i + 2, Scan { path: Some(args[i + 1]), ..so_far })
        } else {
            Scan { broken: true, ..so_far }
        }
    } else if args[i] == "--"@ {
        Scan { rest: so_far.rest + args.skip(i + 1), ..so_far }
    } else {
        scan(args, flag, i + 1, Scan { rest: so_far.rest.push(args[i]), ..so_far })
    }
}

/// A command line as read from its beginning.
pub open spec fn scanned(args: Seq<Seq<char>>, flag: Seq<char>) -> Scan {
    scan(args, flag, 0, Scan { path: None, rest: Seq::empty(), broken: false })
}

/// The path that a flag names, and the other arguments.
pub fn parse_flag_path(args: &Vec<String>, flag: &str) -> (r: Result<
    (String, Vec<String>),
    CliError,
>)
    ensures
        ({
            let s = scanned(texts(args@), flag@);
            if s.broken {
                r matches Err(CliError::NeedsPath(f)) && f@ == flag@
            } else {
                match s.path {
                    None => r matches Err(CliError::Missing(f)) && f@ == flag@,
                    Some(p) => r matches Ok((path, rest)) && path@ == p && texts(rest@) == s.rest,
                }
            }
        }),
{
    let ghost all = texts(args@);
    let ghost goal = scanned(all, flag@);
    let n: usize = args.len();
    let mut path: Option<String> = None;
    let mut rest: Vec<String> = Vec::new();
    let mut i: usize = 0;
    assert(texts(rest@) =~= Seq::<Seq<char>>::empty());
    while i < n
        invariant
            i <= n,
            n == args@.len(),
            all == texts(args@),
            goal == scanned(all, flag@),
            goal == scan(
                all,
                flag@,
                i as int,
                Scan { path: text_of(path), rest: texts(rest@), broken: false },
            ),
        decreases n - i,
    {
        let ghost before = texts(rest@);
        let arg = args[i].as_str();
        if str_eq(arg, flag) {
            if i + 1 >= n {
                return Err(CliError::NeedsPath(flag.to_owned()));
            }
            path = Some(args[i + 1].as_str().to_owned());
            i = i + 2;
        } else if str_eq(arg, "--") {
            i = i + 1;
            let ghost tail = all.skip(i as int);
            assert(goal.rest == before + tail);
            assert(before + all.subrange(i as int, i as int) =~= before);
            while i < n
                invariant
                    i <= n,
                    n == args@.len(),
                    all == texts(args@),
                    tail.len() <= n,
                    i >= n - tail.len(),
                    tail == all.skip(n - tail.len()),
                    texts(rest@) == before + all.subrange(n - tail.len(), i as int),
                decreases n - i,
            {
                let ghost prior = texts(rest@);
                rest.push(args[i].as_str().to_owned());
                assert(texts(rest@) =~= prior.push(all[i as int]));
                i = i + 1;
                assert(texts(rest@) =~= before + all.subrange(n - tail.len(), i as int));
            }
            assert(all.subrange(n - tail.len(), n as int) =~= tail);
            assert(goal == (Scan { path: text_of(path), rest: texts(rest@), broken: false }));
        } else {
            rest.push(arg.to_owned());
            assert(texts(rest@) =~= before.push(all[i as int]));
            i = i + 1;
        }
    }
    match path {
        Some(p) => Ok((p, rest)),
        None => Err(CliError::Missing(flag.to_owned())),
    }
}

/// What an optional string says.
pub open spec fn text_of(s: Option<String>) -> Option<Seq<char>> {
    match s {
        Some(t) => Some(t@),
        None => None,
    }
}

/// What the user wants done.
pub enum Command {
    Help,
    /// Run a program, with these arguments to the command.
    Exec(Vec<String>),
    /// Load a library, with these arguments to the command.
    Jni(Vec<String>),
}

fn tail_of(args: &Vec<String>) -> (r: Vec<String>)
    requires
        args@.len() > 0,
    ensures
        texts(r@) == texts(args@).skip(1),
{
    let n: usize = args.len();
    let ghost all = texts(args@);
    let mut r: Vec<String> = Vec::new();
    let mut i: usize = 1;
    assert(texts(r@) =~= all.subrange(1, 1));
    while i < n
        invariant
            1 <= i <= n,
            n == args@.len(),
            all == texts(args@),
            texts(r@) == all.subrange(1, i as int),
        decreases n - i,
    {
        let ghost prior = texts(r@);
        r.push(args[i].as_str().to_owned());
        assert(texts(r@) =~= prior.push(all[i as int]));
        i = i + 1;
        assert(texts(r@) =~= all.subrange(1, i as int));
    }
    assert(all.subrange(1, n as int) =~= all.skip(1));
    r
}

/// The command that a command line begins with.
pub fn parse_command(args: &Vec<String>) -> (r: Result<Command, CliError>)
    ensures
        ({
            let t = texts(args@);
            if t.len() == 0 || t[0] == "-h"@ || t[0] == "--help"@ {
                r matches Ok(Command::Help)
            } else if t[0] == "exec"@ {
                r matches Ok(Command::Exec(rest)) && texts(rest@) == t.skip(1)
            } else if t[0] == "jni"@ {
                r matches Ok(Command::Jni(rest)) && texts(rest@) == t.skip(1)
            } else {
                r matches Err(CliError::UnknownCommand(c)) && c@ == t[0]
            }
        }),
{
    if args.len() == 0 || str_eq(args[0].as_str(), "-h") || str_eq(args[0].as_str(), "--help") {
        return Ok(Command::Help);
    }
    let command = args[0].as_str();
    if str_eq(command, "exec") {
        return Ok(Command::Exec(tail_of(args)));
    }
    if str_eq(command, "jni") {
        return Ok(Command::Jni(tail_of(args)));
    }
    Err(CliError::UnknownCommand(command.to_owned()))
}

/// A program to run, and its arguments.
pub struct ExecOptions {
    pub bin: String,
    pub args: Vec<String>,
}

/// The options of the command that runs a program.
pub fn parse_exec(args: &Vec<String>) -> (r: Result<ExecOptions, CliError>)
    ensures
        ({
            let s = scanned(texts(args@), "--bin"@);
            if s.broken {
                r matches Err(CliError::NeedsPath(f)) && f@ == "--bin"@
            } else {
                match s.path {
                    None => r matches Err(CliError::Missing(f)) && f@ == "--bin"@,
                    Some(p) => r matches Ok(o) && o.bin@ == p && texts(o.args@) == s.rest,
                }
            }
        }),
{
    match parse_flag_path(args, "--bin") {
        Ok((bin, rest)) => Ok(ExecOptions { bin, args: rest }),
        Err(e) => Err(e),
    }
}

/// A library to load, whether to run its load function, and a function to call.
pub struct JniOptions {
    pub so: String,
    pub onload: bool,
    pub call: Option<String>,
}

/// The options of the command that loads a library.
pub fn parse_jni(args: &Vec<String>) -> (r: Result<JniOptions, CliError>)
    ensures
        ({
            let s = scanned(texts(args@), "--so"@);
            if s.broken {
                r matches Err(CliError::NeedsPath(f)) && f@ == "--so"@
            } else if s.path is None {
                r matches Err(CliError::Missing(f)) && f@ == "--so"@
            } else {
                match optional_value(s.rest, "--call"@) {
                    Err(_) => r matches Err(CliError::NeedsSymbol(f)) && f@ == "--call"@,
                    Ok(call) => {
                        &&& r matches Ok(o)
                        &&& o.so@ == s.path->0
                        &&& o.onload == (flag_at(s.rest, "--onload"@, 0) is Some)
                        &&& text_of(o.call) == call
                    },
                }
            }
        }),
{
    let (so, rest) = match parse_flag_path(args, "--so") {
        Ok(v) => v,
        Err(e) => {
            return Err(e);
        },
    };
    let onload = find_flag(&rest, "--onload").is_some();
    match parse_optional_flag(&rest, "--call") {
        Ok(call) => Ok(JniOptions { so, onload, call }),
        Err(e) => Err(e),
    }
}

/// Where the C library stands under a system root.
pub fn libc_path(root: &str) -> (r: String)
    ensures
        r@ == under_base(root@, "system/lib64/libc.so"@),
{
    host_path(root, "system/lib64/libc.so")
}

/// The help text.
pub const USAGE: &'static str = "rnidbg — ARM64 Android 36 userland runtime

Usage:
rnidbg exec --bin <path> [--] [args...]
rnidbg jni  --so <path> [--onload] [--call <Java_symbol>]

Environment:
BASE_PATH   Android system root (default ./android/sdk36)
RUST_LOG    log filter (default info)
";

pub const NO_LIBC: &'static str = "Android 36 libc not found at ";

pub const GET_LIBC: &'static str = "
Pull a device/emulator image first:
android/sdk36/pull.ps1
or set BASE_PATH to a tree that contains system/lib64/libc.so";

/// The message for a system root without a C library.
pub fn missing_libc(path: &str) -> (r: String)
    ensures
        r@ == NO_LIBC@ + path@ + GET_LIBC@,
{
    join3(NO_LIBC, path, GET_LIBC)
}

/// What stands after two dashes reaches the program as it is, whatever it looks like.
pub proof fn law_arguments_after_dashes(flag: Seq<char>, path: Seq<char>, tail: Seq<Seq<char>>)
    requires
        flag != "--"@,
    ensures
        ({
            let s = scanned(seq![flag, path, "--"@] + tail, flag);
            &&& !s.broken
            &&& s.path == Some(path)
            &&& s.rest == tail
        }),
{
    let args = seq![flag, path, "--"@] + tail;
    let start = Scan { path: None, rest: Seq::empty(), broken: false };
    let with_path = Scan { path: Some(path), ..start };
    assert(args[0] == flag && args[1] == path && args[2] == "--"@);
    assert(scan(args, flag, 0, start) == scan(args, flag, 2, with_path));
    assert(args.skip(3) =~= tail);
    assert(Seq::<Seq<char>>::empty() + tail =~= tail);
}

/// Arguments without the flag and without two dashes reach the program in their order,
/// and then the path is missing.
pub proof fn law_plain_arguments_stay(args: Seq<Seq<char>>, flag: Seq<char>)
    requires
        forall|i: int| 0 <= i < args.len() ==> #[trigger] args[i] != flag && args[i] != "--"@,
    ensures
        scanned(args, flag) == (Scan { path: None, rest: args, broken: false }),
{
    let start = Scan { path: None, rest: Seq::empty(), broken: false };
    assert(args.take(0) =~= Seq::<Seq<char>>::empty());
    lemma_plain_from(args, flag, 0);
}

proof fn lemma_plain_from(args: Seq<Seq<char>>, flag: Seq<char>, i: int)
    requires
        0 <= i <= args.len(),
        forall|i: int| 0 <= i < args.len() ==> #[trigger] args[i] != flag && args[i] != "--"@,
    ensures
        scan(args, flag, i, Scan { path: None, rest: args.take(i), broken: false }) == (Scan {
            path: None,
            rest: args,
            broken: false,
        }),
    decreases args.len() - i,
{
    if i < args.len() {
        assert(args.take(i).push(args[i]) =~= args.take(i + 1));
        lemma_plain_from(args, flag, i + 1);
    } else {
        assert(args.take(i) =~= args);
    }
}

/// An argument that the reading hands over as it is.
pub open spec fn is_plain(args: Seq<Seq<char>>, flag: Seq<char>) -> bool {
    forall|i: int| 0 <= i < args.len() ==> #[trigger] args[i] != flag && args[i] != "--"@
}

/// Wherever the flag stands, the argument after it is the path, and all others are handed over
/// in their order. A flag that stands last has no path. What follows two dashes is handed over
/// whatever it is, also where it looks like the flag.
#[verifier::rlimit(40)]
pub proof fn law_flag_takes_the_next(
    before: Seq<Seq<char>>,
    flag: Seq<char>,
    path: Seq<char>,
    after: Seq<Seq<char>>,
    tail: Seq<Seq<char>>,
)
    requires
        flag != "--"@,
        is_plain(before, flag),
        is_plain(after, flag),
    ensures
        scanned(before + seq![flag, path] + after, flag) == (Scan {
            path: Some(path),
            rest: before + after,
            broken: false,
        }),
        scanned(before + seq![flag], flag).broken,
        scanned(before + seq!["--"@] + tail, flag) == (Scan {
            path: None,
            rest: before + tail,
            broken: false,
        }),
        scanned(before + seq![flag, path, "--"@] + tail, flag) == (Scan {
            path: Some(path),
            rest: before + tail,
            broken: false,
        }),
{
    let start = Scan { path: None, rest: Seq::empty(), broken: false };
    let n = before.len() as int;
    let k = after.len() as int;
    let one = before + seq![flag, path] + after;
    lemma_skip_plain(one, flag, 0, n, start);
    assert(one.subrange(0, n) =~= before);
    assert(one[n] == flag && one[n + 1] == path);
    let found = Scan { path: Some(path), rest: before, broken: false };
    assert(start.rest + before =~= before);
    assert(scanned(one, flag) == scan(one, flag, n + 2, found));
    assert forall|i: int| n + 2 <= i < n + 2 + k implies #[trigger] one[i] != flag && one[i]
        != "--"@ by {
        assert(one[i] == after[i - n - 2]);
    }
    lemma_skip_plain(one, flag, n + 2, n + 2 + k, found);
    assert(one.subrange(n + 2, n + 2 + k) =~= after);
    let two = before + seq![flag];
    lemma_skip_plain(two, flag, 0, n, start);
    assert(two[n] == flag);
    let three = before + seq!["--"@] + tail;
    lemma_skip_plain(three, flag, 0, n, start);
    assert(three.subrange(0, n) =~= before);
    assert(three[n] == "--"@);
    assert(three.skip(n + 1) =~= tail);
    let four = before + seq![flag, path, "--"@] + tail;
    lemma_skip_plain(four, flag, 0, n, start);
    assert(four.subrange(0, n) =~= before);
    assert(four[n] == flag && four[n + 1] == path && four[n + 2] == "--"@);
    assert(scanned(four, flag) == scan(four, flag, n + 2, found));
    assert(four.skip(n + 3) =~= tail);
}

proof fn lemma_skip_plain(args: Seq<Seq<char>>, flag: Seq<char>, i: int, n: int, s: Scan)
    requires
        0 <= i <= n <= args.len(),
        forall|j: int| i <= j < n ==> #[trigger] args[j] != flag && args[j] != "--"@,
    ensures
        scan(args, flag, i, s) == scan(
            args,
            flag,
            n,
            Scan { rest: s.rest + args.subrange(i, n), ..s },
        ),
    decreases n - i,
{
    if i < n {
        let next = Scan { rest: s.rest.push(args[i]), ..s };
        lemma_skip_plain(args, flag, i + 1, n, next);
        assert(next.rest + args.subrange(i + 1, n) =~= s.rest + args.subrange(i, n));
    } else {
        assert(s.rest + args.subrange(i, n) =~= s.rest);
    }
}

/// A flag that is not there has no value; of one that is there, the value is what follows
/// where it stands first, and it is at fault where nothing follows or another flag does.
pub proof fn law_optional_flag(args: Seq<Seq<char>>, flag: Seq<char>, i: int)
    requires
        0 <= i < args.len(),
        args[i] == flag,
        forall|j: int| 0 <= j < i ==> #[trigger] args[j] != flag,
    ensures
        i + 1 == args.len() ==> optional_value(args, flag) is Err,
        i + 1 < args.len() ==> (optional_value(args, flag) is Err <==> begins_with(
            args[i + 1],
            "--"@,
        )),
        i + 1 < args.len() ==> !begins_with(args[i + 1], "--"@) ==> optional_value(args, flag)
            == Ok::<Option<Seq<char>>, ()>(Some(args[i + 1])),
        flag_at(args, flag, 0) == Some(i),
        optional_value(args.take(i), flag) == Ok::<Option<Seq<char>>, ()>(None),
{
    lemma_flag_found(args, flag, 0, i);
    lemma_flag_missing(args.take(i), flag, 0);
}

proof fn lemma_flag_found(args: Seq<Seq<char>>, flag: Seq<char>, from: int, i: int)
    requires
        0 <= from <= i < args.len(),
        args[i] == flag,
        forall|j: int| from <= j < i ==> #[trigger] args[j] != flag,
    ensures
        flag_at(args, flag, from) == Some(i),
    decreases i - from,
{
    if from < i {
        lemma_flag_found(args, flag, from + 1, i);
    }
}

proof fn lemma_flag_missing(args: Seq<Seq<char>>, flag: Seq<char>, from: int)
    requires
        0 <= from,
        forall|j: int| from <= j < args.len() ==> #[trigger] args[j] != flag,
    ensures
        flag_at(args, flag, from) is None,
    decreases args.len() - from,
{
    if from < args.len() {
        lemma_flag_missing(args, flag, from + 1);
    }
}

} // verus!
