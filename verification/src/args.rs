//! The command line: what each argument means, and what a whole command
//! line asks for.

use vstd::prelude::*;
use vstd::utf8::encode_utf8;
use crate::color::ColorScheme;
use crate::numbers::parse_int;
use crate::numbers::read_digits;
use crate::numbers::MINUS;
use crate::numbers::PLUS;
use crate::options::Options;
use crate::options::DEFAULT_TREE_DEPTH;
use crate::options::UNLIMITED_DEPTH;
use crate::text::find_byte;
use crate::text::lemma_utf8_concat;
use crate::text::text_after;
use crate::text::is_word;
use crate::text::named;
use crate::text::span_before;

verus! {

/// The byte `=`, which parts `--tree` from its depth.
pub const EQUALS: u8 = 0x3d;

/// What one argument means.
#[derive(Clone, Copy, Debug, PartialEq, Eq, Structural)]
pub enum Meaning {
    OnePerLine,
    All,
    AlmostAll,
    DirsOnly,
    FilesOnly,
    Long,
    Report,
    /// A tree listing of the given depth.
    Tree(usize),
    GitStatus,
    SortDirsFirst,
    SortFilesFirst,
    SortTime,
    Light,
    Dark,
    NonHumanReadable,
    Help,
    /// `--tree=` with something that is no depth.
    InvalidDepth,
    /// `--tree` with something behind it that is no `=` and a depth.
    InvalidTreeSyntax,
    /// A flag that is not known.
    UnknownFlag,
    /// No flag: a path to list.
    Path,
}

/// Whether `text` starts with `start`.
pub open spec fn starts_with(text: Seq<u8>, start: Seq<u8>) -> bool {
    text.len() >= start.len() && text.take(start.len() as int) == start
}

/// The depth that the text behind `--tree=` asks for: 3 where there is no
/// text, no limit for a number that is zero or less, and the number itself
/// where it is above zero. `None` where the text is no number, or a number
/// that does not fit into the machine's signed word.
pub open spec fn depth_of_value(value: Seq<u8>) -> Option<usize> {
    if value.len() == 0 {
        Some(DEFAULT_TREE_DEPTH)
    } else {
        match parse_int(value) {
            Some(n) => if n < isize::MIN || n > isize::MAX {
                None
            } else if n <= 0 {
                Some(UNLIMITED_DEPTH)
            } else {
                Some(n as usize)
            },
            None => None,
        }
    }
}

/// What an argument that starts with `--tree` means.
pub open spec fn tree_meaning(arg: Seq<u8>) -> Meaning {
    if named(arg, "--tree") {
        Meaning::Tree(DEFAULT_TREE_DEPTH)
    } else {
        let eq = span_before(arg, EQUALS);
        if eq >= arg.len() {
            Meaning::InvalidTreeSyntax
        } else {
            match depth_of_value(arg.skip(eq as int + 1)) {
                Some(depth) => Meaning::Tree(depth),
                None => Meaning::InvalidDepth,
            }
        }
    }
}

/// What an argument means.
pub open spec fn meaning_of(arg: Seq<u8>) -> Meaning {
    if named(arg, "-1") {
        Meaning::OnePerLine
    } else if named(arg, "-a") || named(arg, "--all") {
        Meaning::All
    } else if named(arg, "-A") || named(arg, "--almost-all") {
        Meaning::AlmostAll
    } else if named(arg, "-d") || named(arg, "--dirs") {
        Meaning::DirsOnly
    } else if named(arg, "-f") || named(arg, "--files") {
        Meaning::FilesOnly
    } else if named(arg, "-l") || named(arg, "--long") {
        Meaning::Long
    } else if named(arg, "--report") {
        Meaning::Report
    } else if starts_with(arg, encode_utf8("--tree"@)) {
        tree_meaning(arg)
    } else if named(arg, "--gs") || named(arg, "--git-status") {
        Meaning::GitStatus
    } else if named(arg, "--sd") || named(arg, "--sort-dirs") || named(
        arg,
        "--group-directories-first",
    ) {
        Meaning::SortDirsFirst
    } else if named(arg, "--sf") || named(arg, "--sort-files") {
        Meaning::SortFilesFirst
    } else if named(arg, "-t") {
        Meaning::SortTime
    } else if named(arg, "--light") {
        Meaning::Light
    } else if named(arg, "--dark") {
        Meaning::Dark
    } else if named(arg, "--non-human-readable") {
        Meaning::NonHumanReadable
    } else if named(arg, "--help") || named(arg, "-h") {
        Meaning::Help
    } else if arg.len() > 0 && arg[0] == MINUS {
        Meaning::UnknownFlag
    } else {
        Meaning::Path
    }
}

/// The options after an argument of the given meaning. Arguments that set
/// no option leave them as they are.
pub open spec fn with_meaning(opts: Options, meaning: Meaning) -> Options {
    match meaning {
        Meaning::OnePerLine => Options { one_per_line: true, ..opts },
        Meaning::All => Options { all: true, ..opts },
        Meaning::AlmostAll => Options { all: true, almost_all: true, ..opts },
        Meaning::DirsOnly => Options { dirs_only: true, ..opts },
        Meaning::FilesOnly => Options { files_only: true, ..opts },
        Meaning::Long => Options { long: true, ..opts },
        Meaning::Report => Options { report: true, ..opts },
        Meaning::Tree(depth) => Options { tree_depth: Some(depth), ..opts },
        Meaning::GitStatus => Options { git_status: true, ..opts },
        Meaning::SortDirsFirst => Options { sort_dirs_first: true, ..opts },
        Meaning::SortFilesFirst => Options { sort_files_first: true, ..opts },
        Meaning::SortTime => Options { sort_time: true, ..opts },
        Meaning::Light => Options { color_scheme: ColorScheme::light_colors(), ..opts },
        Meaning::Dark => Options { color_scheme: ColorScheme::dark_colors(), ..opts },
        Meaning::NonHumanReadable => Options { human_readable: false, ..opts },
        _ => opts,
    }
}

/// Whether an argument of this meaning ends the reading of the command
/// line: a call for help, or an error.
pub open spec fn is_final(meaning: Meaning) -> bool {
    meaning == Meaning::Help || meaning == Meaning::InvalidDepth || meaning
        == Meaning::InvalidTreeSyntax || meaning == Meaning::UnknownFlag
}

/// What a command line asks for.
pub enum Request {
    /// To list the paths with the options; the current directory where no
    /// path is named.
    List { opts: Options, paths: Vec<String> },
    /// To show the help text and nothing else.
    Help,
    /// Nothing that can be done: the argument at `index` is in error, as
    /// `meaning` says.
    Invalid { index: usize, meaning: Meaning },
}

/// The place of the first argument that ends the reading, from `from` on;
/// the number of arguments where there is none.
pub open spec fn first_final(args: Seq<Seq<u8>>, from: int) -> int
    decreases args.len() - from,
{
    if from < 0 || from >= args.len() {
        args.len() as int
    } else if is_final(meaning_of(args[from])) {
        from
    } else {
        first_final(args, from + 1)
    }
}

/// The options after the first `upto` arguments, starting from `opts`.
pub open spec fn options_after(opts: Options, args: Seq<Seq<u8>>, upto: int) -> Options
    decreases upto,
{
    if upto <= 0 {
        opts
    } else {
        with_meaning(options_after(opts, args, upto - 1), meaning_of(args[upto - 1]))
    }
}

/// The places of the paths among the first `upto` arguments.
pub open spec fn path_places(args: Seq<Seq<u8>>, upto: int) -> Seq<int>
    decreases upto,
{
    if upto <= 0 {
        Seq::empty()
    } else if meaning_of(args[upto - 1]) == Meaning::Path {
        path_places(args, upto - 1).push(upto - 1)
    } else {
        path_places(args, upto - 1)
    }
}

/// The bytes of each argument.
pub open spec fn arg_bytes(args: Seq<String>) -> Seq<Seq<u8>> {
    Seq::new(args.len(), |i: int| encode_utf8(args[i]@))
}

/// Whether `request` is what the command line `args` asks for. The
/// arguments are read in their order up to the first call for help or the
/// first error, which decides alone. Without either, each flag sets its
/// option, starting from the defaults, and the other arguments are the
/// paths, in their order; without any path, the path is `.`.
pub open spec fn is_request_of(request: Request, args: Seq<String>) -> bool {
    let bytes = arg_bytes(args);
    let stop = first_final(bytes, 0);
    if stop < args.len() {
        if meaning_of(bytes[stop]) == Meaning::Help {
            request is Help
        } else {
            request == (Request::Invalid { index: stop as usize, meaning: meaning_of(bytes[stop]) })
        }
    } else {
        let places = path_places(bytes, args.len() as int);
        &&& request matches Request::List { opts, paths }
        &&& opts == options_after(Options::defaults(), bytes, args.len() as int)
        &&& if places.len() == 0 {
            paths@.len() == 1 && paths@[0]@ == "."@
        } else {
            paths@.len() == places.len() && forall|k: int|
                0 <= k < places.len() ==> (#[trigger] paths@[k])@ == args[places[k]]@
        }
    }
}

/// Reads the depth behind `--tree=`, which starts at `from`.
fn read_depth(bytes: &[u8], from: usize) -> (depth: Option<usize>)
    requires
        from <= bytes.len(),
    ensures
        depth == depth_of_value(bytes@.skip(from as int)),
{
    let n = bytes.len();
    let ghost value = bytes@.skip(from as int);
    if from == n {
        return Some(DEFAULT_TREE_DEPTH);
    }
    assert(value[0] == bytes[from as int]);
    let negative = bytes[from] == MINUS;
    let signed = negative || bytes[from] == PLUS;
    let start = if signed {
        from + 1
    } else {
        from
    };
    assert(signed ==> value.skip(1) =~= bytes@.skip(start as int));
    if start == n {
        return None;
    }
    match read_digits(bytes, start) {
        Some(v) => {
            if negative {
                if v <= isize::MAX as u128 + 1 {
                    Some(UNLIMITED_DEPTH)
                } else {
                    None
                }
            } else if v == 0 {
                Some(UNLIMITED_DEPTH)
            } else if v <= isize::MAX as u128 {
                Some(v as usize)
            } else {
                None
            }
        },
        None => None,
    }
}

/// Whether `bytes` starts with the text `word`.
fn has_prefix(bytes: &[u8], word: &str) -> (yes: bool)
    ensures
        yes == starts_with(bytes@, encode_utf8(word@)),
{
    let w = word.as_bytes();
    if bytes.len() < w.len() {
        return false;
    }
    let mut i: usize = 0;
    while i < w.len()
        invariant
            i <= w.len(),
            w.len() <= bytes.len(),
            w@ == encode_utf8(word@),
            forall|k: int| 0 <= k < i ==> bytes[k] == w[k],
        decreases w.len() - i,
    {
        if bytes[i] != w[i] {
            assert(bytes@.take(w.len() as int)[i as int] != w@[i as int]);
            return false;
        }
        i += 1;
    }
    assert(bytes@.take(w.len() as int) =~= w@);
    true
}

/// Says what an argument means.
pub fn classify(arg: &str) -> (meaning: Meaning)
    ensures
        meaning == meaning_of(encode_utf8(arg@)),
{
    let a = arg.as_bytes();
    if is_word(a, "-1") {
        Meaning::OnePerLine
    } else if is_word(a, "-a") || is_word(a, "--all") {
        Meaning::All
    } else if is_word(a, "-A") || is_word(a, "--almost-all") {
        Meaning::AlmostAll
    } else if is_word(a, "-d") || is_word(a, "--dirs") {
        Meaning::DirsOnly
    } else if is_word(a, "-f") || is_word(a, "--files") {
        Meaning::FilesOnly
    } else if is_word(a, "-l") || is_word(a, "--long") {
        Meaning::Long
    } else if is_word(a, "--report") {
        Meaning::Report
    } else if has_prefix(a, "--tree") {
        if is_word(a, "--tree") {
            Meaning::Tree(DEFAULT_TREE_DEPTH)
        } else {
            assert(a@.skip(0) =~= a@);
            let eq = find_byte(a, 0, EQUALS);
            if eq >= a.len() {
                Meaning::InvalidTreeSyntax
            } else {
                match read_depth(a, eq + 1) {
                    Some(depth) => Meaning::Tree(depth),
                    None => Meaning::InvalidDepth,
                }
            }
        }
    } else if is_word(a, "--gs") || is_word(a, "--git-status") {
        Meaning::GitStatus
    } else if is_word(a, "--sd") || is_word(a, "--sort-dirs") || is_word(
        a,
        "--group-directories-first",
    ) {
        Meaning::SortDirsFirst
    } else if is_word(a, "--sf") || is_word(a, "--sort-files") {
        Meaning::SortFilesFirst
    } else if is_word(a, "-t") {
        Meaning::SortTime
    } else if is_word(a, "--light") {
        Meaning::Light
    } else if is_word(a, "--dark") {
        Meaning::Dark
    } else if is_word(a, "--non-human-readable") {
        Meaning::NonHumanReadable
    } else if is_word(a, "--help") || is_word(a, "-h") {
        Meaning::Help
    } else if a.len() > 0 && a[0] == MINUS {
        Meaning::UnknownFlag
    } else {
        Meaning::Path
    }
}

/// The options with the option set that an argument of the given meaning
/// stands for.
pub fn apply(opts: Options, meaning: Meaning) -> (after: Options)
    ensures
        after == with_meaning(opts, meaning),
{
    match meaning {
        Meaning::OnePerLine => Options { one_per_line: true, ..opts },
        Meaning::All => Options { all: true, ..opts },
        Meaning::AlmostAll => Options { all: true, almost_all: true, ..opts },
        Meaning::DirsOnly => Options { dirs_only: true, ..opts },
        Meaning::FilesOnly => Options { files_only: true, ..opts },
        Meaning::Long => Options { long: true, ..opts },
        Meaning::Report => Options { report: true, ..opts },
        Meaning::Tree(depth) => Options { tree_depth: Some(depth), ..opts },
        Meaning::GitStatus => Options { git_status: true, ..opts },
        Meaning::SortDirsFirst => Options { sort_dirs_first: true, ..opts },
        Meaning::SortFilesFirst => Options { sort_files_first: true, ..opts },
        Meaning::SortTime => Options { sort_time: true, ..opts },
        Meaning::Light => Options { color_scheme: ColorScheme::light(), ..opts },
        Meaning::Dark => Options { color_scheme: ColorScheme::dark(), ..opts },
        Meaning::NonHumanReadable => Options { human_readable: false, ..opts },
        _ => opts,
    }
}

/// Reads a command line, given without the program's name.
pub fn parse_args(args: &Vec<String>) -> (request: Request)
    ensures
        is_request_of(request, args@),
{
    let ghost bytes = arg_bytes(args@);
    let n = args.len();
    let mut opts = Options::default();
    let mut paths: Vec<String> = Vec::new();
    let mut i: usize = 0;
    while i < n
        invariant
            i <= n,
            n == args.len(),
            bytes == arg_bytes(args@),
            first_final(bytes, 0) == first_final(bytes, i as int),
            opts == options_after(Options::defaults(), bytes, i as int),
            paths@.len() == path_places(bytes, i as int).len(),
            forall|k: int|
                0 <= k < paths@.len() ==> (#[trigger] paths@[k])@ == args[path_places(
                    bytes,
                    i as int,
                )[k]]@,
            forall|k: int|
                0 <= k < path_places(bytes, i as int).len() ==> 0 <= #[trigger] path_places(
                    bytes,
                    i as int,
                )[k] < i,
        decreases n - i,
    {
        let arg = &args[i];
        let meaning = classify(arg.as_str());
        assert(bytes[i as int] == encode_utf8(arg@));
        match meaning {
            Meaning::Help => {
                return Request::Help;
            },
            Meaning::InvalidDepth | Meaning::InvalidTreeSyntax | Meaning::UnknownFlag => {
                return Request::Invalid { index: i, meaning };
            },
            Meaning::Path => {
                let ghost before = paths@;
                paths.push(arg.clone());
                proof {
                    let places = path_places(bytes, i + 1);
                    assert(places.drop_last() =~= path_places(bytes, i as int));
                    assert forall|k: int| 0 <= k < paths@.len() implies (#[trigger] paths@[k])@
                        == args[places[k]]@ by {
                        if k < before.len() {
                            assert(paths@[k] == before[k]);
                        }
                    }
                }
            },
            _ => {
                opts = apply(opts, meaning);
            },
        }
        i += 1;
    }
    if paths.len() == 0 {
        paths.push(".".to_owned());
    }
    Request::List { opts, paths }
}

/// What to tell the user of an argument in error: for a depth that is
/// none, the text behind the `=`; for the other errors, the argument.
/// Nothing for an argument that is not in error.
pub open spec fn error_text(arg: Seq<u8>, meaning: Meaning) -> Option<Seq<u8>> {
    match meaning {
        Meaning::InvalidDepth => Some(
            encode_utf8("Invalid depth for --tree: "@) + arg.skip(
                span_before(arg, EQUALS) as int + 1,
            ),
        ),
        Meaning::InvalidTreeSyntax => Some(encode_utf8("Invalid syntax for --tree: "@) + arg),
        Meaning::UnknownFlag => Some(encode_utf8("Unknown flag: "@) + arg),
        _ => None,
    }
}

/// The message for an argument in error, and `None` for any other
/// argument.
pub fn error_message(arg: &str) -> (message: Option<String>)
    ensures
        match message {
            Some(text) => error_text(encode_utf8(arg@), meaning_of(encode_utf8(arg@))) == Some(
                encode_utf8(text@),
            ),
            None => error_text(encode_utf8(arg@), meaning_of(encode_utf8(arg@))) is None,
        },
{
    match classify(arg) {
        Meaning::InvalidDepth => {
            let bytes = arg.as_bytes();
            assert(bytes@.skip(0) =~= bytes@);
            let eq = find_byte(bytes, 0, EQUALS);
            let value = text_after(arg, eq + 1);
            let mut text = "Invalid depth for --tree: ".to_owned();
            proof {
                lemma_utf8_concat(text@, value@);
            }
            text.append(value);
            Some(text)
        },
        Meaning::InvalidTreeSyntax => {
            let mut text = "Invalid syntax for --tree: ".to_owned();
            proof {
                lemma_utf8_concat(text@, arg@);
            }
            text.append(arg);
            Some(text)
        },
        Meaning::UnknownFlag => {
            let mut text = "Unknown flag: ".to_owned();
            proof {
                lemma_utf8_concat(text@, arg@);
            }
            text.append(arg);
            Some(text)
        },
        _ => None,
    }
}

} // verus!
