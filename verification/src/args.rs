//! The command line: which outputs are requested and where the repository is.

use crate::model::AnalysisOptions;
use vstd::prelude::*;

verus! {

/// Where the repository is to be found.
#[derive(Debug)]
pub enum GitLocation {
    /// A path on this machine.
    Local(String),
    /// An absolute URL, in the form in which the URL parser writes it.
    Remote(String),
}

/// Which outputs are requested.
#[derive(Clone, Copy, PartialEq, Eq, Structural, Debug)]
pub struct Flags {
    pub general_overview: bool,
    pub extended_overview: bool,
    pub pie_chart: bool,
    pub commit_graph: bool,
    pub weekday_stats: bool,
}

/// The parsed command line.
#[derive(Debug)]
pub struct AppArgs {
    pub location: GitLocation,
    pub flags: Flags,
}

/// Why a command line was not accepted.
#[derive(Debug)]
pub enum ArgsError {
    /// Nothing follows the name of the program.
    MissingArguments,
    /// An argument starts with '-' and is none of the options.
    UnknownArgument(String),
    /// No argument names a repository.
    NoPath,
    /// The repository is given in the SSH form, which is not supported.
    SshNotSupported,
    /// The repository is given as a URL that does not parse.
    InvalidUrl,
}

/// What a command line asks for, before any URL is parsed. Positions are
/// indexes into the arguments.
pub enum Verdict {
    MissingArguments,
    UnknownArgument(int),
    NoPath,
    SshNotSupported,
    Remote(int),
    Local(int),
}

/// The arguments as sequences of characters.
pub open spec fn texts(args: Seq<String>) -> Seq<Seq<char>> {
    args.map_values(|arg: String| arg@)
}

/// Whether `text` begins with `prefix`.
pub open spec fn begins_with(text: Seq<char>, prefix: Seq<char>) -> bool {
    prefix.len() <= text.len() && text.subrange(0, prefix.len() as int) == prefix
}

/// Whether an argument is written as an option.
pub open spec fn is_option(arg: Seq<char>) -> bool {
    arg.len() > 0 && arg[0] == '-'
}

/// Whether an argument is one of the options.
pub open spec fn known_option(arg: Seq<char>) -> bool {
    ||| arg == "-c"@
    ||| arg == "--commit-graph"@
    ||| arg == "-e"@
    ||| arg == "--extended-overview"@
    ||| arg == "-n"@
    ||| arg == "--no-overview"@
    ||| arg == "-p"@
    ||| arg == "--pie-chart"@
    ||| arg == "-w"@
    ||| arg == "--week-day-stats"@
}

/// The flags that hold where no option is given: the general overview only.
pub open spec fn default_flags() -> Flags {
    Flags {
        general_overview: true,
        extended_overview: false,
        pie_chart: false,
        commit_graph: false,
        weekday_stats: false,
    }
}

/// The flags after one more argument. Arguments that are no options leave
/// them as they are.
pub open spec fn with_argument(flags: Flags, arg: Seq<char>) -> Flags {
    if arg == "-c"@ || arg == "--commit-graph"@ {
        Flags { commit_graph: true, ..flags }
    } else if arg == "-e"@ || arg == "--extended-overview"@ {
        Flags { extended_overview: true, ..flags }
    } else if arg == "-n"@ || arg == "--no-overview"@ {
        Flags { general_overview: false, ..flags }
    } else if arg == "-p"@ || arg == "--pie-chart"@ {
        Flags { pie_chart: true, ..flags }
    } else if arg == "-w"@ || arg == "--week-day-stats"@ {
        Flags { weekday_stats: true, ..flags }
    } else {
        flags
    }
}

/// The flags that a command line sets.
pub open spec fn flags_of(args: Seq<Seq<char>>) -> Flags
    decreases args.len(),
{
    if args.len() == 0 {
        default_flags()
    } else {
        with_argument(flags_of(args.drop_last()), args.last())
    }
}

/// The position of the first argument at or after `from` that is written as
/// an option and is none; the number of arguments where there is no such.
pub open spec fn first_unknown(args: Seq<Seq<char>>, from: int) -> int
    decreases args.len() - from,
{
    if from >= args.len() {
        args.len() as int
    } else if is_option(args[from]) && !known_option(args[from]) {
        from
    } else {
        first_unknown(args, from + 1)
    }
}

/// The position of the first argument at or after `from` that is not written
/// as an option; the number of arguments where there is no such.
pub open spec fn first_path(args: Seq<Seq<char>>, from: int) -> int
    decreases args.len() - from,
{
    if from >= args.len() {
        args.len() as int
    } else if !is_option(args[from]) {
        from
    } else {
        first_path(args, from + 1)
    }
}

/// What a command line asks for. The name of the program comes first; it
/// is checked like an option, but never taken as the path.
pub open spec fn verdict_of(args: Seq<Seq<char>>) -> Verdict {
    if args.len() < 2 {
        Verdict::MissingArguments
    } else if first_unknown(args, 0) < args.len() {
        Verdict::UnknownArgument(first_unknown(args, 0))
    } else if first_path(args, 1) >= args.len() {
        Verdict::NoPath
    } else {
        let at = first_path(args, 1);
        if begins_with(args[at], "http"@) {
            Verdict::Remote(at)
        } else if begins_with(args[at], "git@"@) {
            Verdict::SshNotSupported
        } else {
            Verdict::Local(at)
        }
    }
}

/// The text of an absolute URL as the URL parser writes it back; `None`
/// where the input does not parse as one.
pub uninterp spec fn url_text(input: Seq<char>) -> Option<Seq<char>>;

/// The error of `url::Url::parse`. It is carried through unread.
#[verifier::external_type_specification]
#[verifier::external_body]
pub struct ExParseError(url::ParseError);

/// Calls `url::Url::parse` and takes the parsed URL's text with `Url::as_str`.
///
/// Trusted: whether the input parses, and the text that is written back,
/// depend on the input alone.
#[verifier::external_body]
fn parse_url(input: &str) -> (parsed: Result<String, url::ParseError>)
    ensures
        match parsed {
            Ok(text) => url_text(input@) == Some(text@),
            Err(_) => url_text(input@) is None,
        },
{
    match url::Url::parse(input) {
        Ok(url) => Ok(url.as_str().to_string()),
        Err(error) => Err(error),
    }
}

/// Tells whether two texts are the same.
fn same_text(a: &str, b: &str) -> (same: bool)
    ensures
        same == (a@ == b@),
{
    let len: usize = a.unicode_len();
    if len != b.unicode_len() {
        return false;
    }
    let mut i: usize = 0;
    while i < len
        invariant
            i <= len,
            len == a@.len(),
            len == b@.len(),
            forall|k: int| 0 <= k < i ==> a@[k] == b@[k],
        decreases len - i,
    {
        if a.get_char(i) != b.get_char(i) {
            return false;
        }
        i += 1;
    }
    assert(a@ =~= b@);
    true
}

/// Tells whether a text begins with a prefix.
fn text_begins_with(text: &str, prefix: &str) -> (begins: bool)
    ensures
        begins == begins_with(text@, prefix@),
{
    let len: usize = prefix.unicode_len();
    if text.unicode_len() < len {
        return false;
    }
    let mut i: usize = 0;
    while i < len
        invariant
            i <= len,
            len == prefix@.len(),
            len <= text@.len(),
            forall|k: int| 0 <= k < i ==> text@[k] == prefix@[k],
        decreases len - i,
    {
        if text.get_char(i) != prefix.get_char(i) {
            assert(text@.subrange(0, len as int)[i as int] != prefix@[i as int]);
            return false;
        }
        i += 1;
    }
    assert(text@.subrange(0, len as int) =~= prefix@);
    true
}

/// Tells whether an argument is written as an option: it starts with '-'.
fn starts_as_option(arg: &str) -> (option: bool)
    ensures
        option == is_option(arg@),
{
    arg.unicode_len() > 0 && arg.get_char(0) == '-'
}

impl Flags {
    /// The flags that hold where no option is given.
    pub fn new() -> (flags: Flags)
        ensures
            flags == default_flags(),
    {
        Flags {
            general_overview: true,
            extended_overview: false,
            pie_chart: false,
            commit_graph: false,
            weekday_stats: false,
        }
    }

    /// The flags after the option `arg`; `None` where `arg` is none of the
    /// options.
    pub fn apply(self, arg: &str) -> (applied: Option<Flags>)
        ensures
            known_option(arg@) ==> applied == Some(with_argument(self, arg@)),
            !known_option(arg@) ==> applied is None,
    {
        if same_text(arg, "-c") || same_text(arg, "--commit-graph") {
            Some(Flags { commit_graph: true, ..self })
        } else if same_text(arg, "-e") || same_text(arg, "--extended-overview") {
            Some(Flags { extended_overview: true, ..self })
        } else if same_text(arg, "-n") || same_text(arg, "--no-overview") {
            Some(Flags { general_overview: false, ..self })
        } else if same_text(arg, "-p") || same_text(arg, "--pie-chart") {
            Some(Flags { pie_chart: true, ..self })
        } else if same_text(arg, "-w") || same_text(arg, "--week-day-stats") {
            Some(Flags { weekday_stats: true, ..self })
        } else {
            None
        }
    }

    /// The aggregates that the requested outputs need: the extended overview
    /// shows the churn, the commit graph the calendar and the streaks, the
    /// weekday statistics the weekday histogram.
    pub fn analysis_options(&self) -> (options: AnalysisOptions)
        ensures
            options.churn == self.extended_overview,
            options.calendar == self.commit_graph,
            options.weekdays == self.weekday_stats,
    {
        AnalysisOptions {
            churn: self.extended_overview,
            calendar: self.commit_graph,
            weekdays: self.weekday_stats,
        }
    }
}

/// The location that a parsed URL gives: the URL's text where it parsed,
/// and an error where it did not.
pub fn remote_location(parsed: Result<String, url::ParseError>) -> (location: Result<
    GitLocation,
    ArgsError,
>)
    ensures
        match parsed {
            Ok(text) => location matches Ok(GitLocation::Remote(url)) && url@ == text@,
            Err(_) => location matches Err(ArgsError::InvalidUrl),
        },
{
    match parsed {
        Ok(text) => Ok(GitLocation::Remote(text)),
        Err(_) => Err(ArgsError::InvalidUrl),
    }
}

/// Reads the flags of a command line. Every argument that starts with '-',
/// the name of the program included, must be one of the options; the first
/// that is none is handed back.
pub fn parse_flags(args: &Vec<String>) -> (flags: Result<Flags, String>)
    ensures
        match flags {
            Ok(set) => first_unknown(texts(args@), 0) == args.len() && set == flags_of(
                texts(args@),
            ),
            Err(unknown) => first_unknown(texts(args@), 0) < args.len() && unknown@ == texts(
                args@,
            )[first_unknown(texts(args@), 0)],
        },
{
    let ghost all = texts(args@);
    let mut flags = Flags::new();
    let mut i: usize = 0;
    assert(all.take(0) =~= Seq::<Seq<char>>::empty());
    while i < args.len()
        invariant
            i <= args.len(),
            all == texts(args@),
            flags == flags_of(all.take(i as int)),
            first_unknown(all, 0) == first_unknown(all, i as int),
        decreases args.len() - i,
    {
        let arg = &args[i];
        assert(all[i as int] == arg@);
        assert(all.take(i + 1).drop_last() =~= all.take(i as int));
        if starts_as_option(arg.as_str()) {
            match flags.apply(arg.as_str()) {
                Some(applied) => {
                    flags = applied;
                },
                None => {
                    return Err(arg.clone());
                },
            }
        } else {
            assert(!known_option(arg@)) by {
                reveal_option_texts();
            }
        }
        i += 1;
    }
    assert(all.take(args.len() as int) =~= all);
    Ok(flags)
}

/// Every option starts with '-'.
proof fn reveal_option_texts()
    ensures
        forall|arg: Seq<char>| known_option(arg) ==> is_option(arg),
{
    reveal_strlit("-c");
    reveal_strlit("--commit-graph");
    reveal_strlit("-e");
    reveal_strlit("--extended-overview");
    reveal_strlit("-n");
    reveal_strlit("--no-overview");
    reveal_strlit("-p");
    reveal_strlit("--pie-chart");
    reveal_strlit("-w");
    reveal_strlit("--week-day-stats");
}

/// Finds the argument that names the repository: the first after the name of
/// the program that does not start with '-'.
pub fn find_path(args: &Vec<String>) -> (at: Option<usize>)
    ensures
        match at {
            Some(i) => 1 <= i < args.len() && i == first_path(texts(args@), 1),
            None => first_path(texts(args@), 1) >= args.len(),
        },
{
    let ghost all = texts(args@);
    let mut i: usize = 1;
    while i < args.len()
        invariant
            1 <= i,
            all == texts(args@),
            first_path(all, 1) == first_path(all, i as int),
        decreases args.len() - i,
    {
        assert(all[i as int] == args[i as int]@);
        if !starts_as_option(args[i].as_str()) {
            return Some(i);
        }
        i += 1;
    }
    None
}

/// Parses the command line, the name of the program first.
///
/// The flags are read first; then the first argument that is no option is
/// taken as the repository: a URL where it begins with "http", a local path
/// otherwise. Whether a local path exists is not looked at here.
pub fn parse_args(args: &Vec<String>) -> (parsed: Result<AppArgs, ArgsError>)
    ensures
        match verdict_of(texts(args@)) {
            Verdict::MissingArguments => parsed matches Err(ArgsError::MissingArguments),
            Verdict::UnknownArgument(at) => parsed matches Err(ArgsError::UnknownArgument(arg))
                && arg@ == texts(args@)[at],
            Verdict::NoPath => parsed matches Err(ArgsError::NoPath),
            Verdict::SshNotSupported => parsed matches Err(ArgsError::SshNotSupported),
            Verdict::Local(at) => {
                &&& parsed matches Ok(app)
                &&& app.flags == flags_of(texts(args@))
                &&& app.location matches GitLocation::Local(path)
                &&& path@ == texts(args@)[at]
            },
            Verdict::Remote(at) => match url_text(texts(args@)[at]) {
                Some(text) => {
                    &&& parsed matches Ok(app)
                    &&& app.flags == flags_of(texts(args@))
                    &&& app.location matches GitLocation::Remote(url)
                    &&& url@ == text
                },
                None => parsed matches Err(ArgsError::InvalidUrl),
            },
        },
{
    if args.len() < 2 {
        return Err(ArgsError::MissingArguments);
    }
    let flags = match parse_flags(args) {
        Ok(flags) => flags,
        Err(unknown) => {
            return Err(ArgsError::UnknownArgument(unknown));
        },
    };
    let at: usize = match find_path(args) {
        Some(at) => at,
        None => {
            return Err(ArgsError::NoPath);
        },
    };
    let path = &args[at];
    assert(texts(args@)[at as int] == path@);
    if text_begins_with(path.as_str(), "http") {
        match remote_location(parse_url(path.as_str())) {
            Ok(location) => Ok(AppArgs { location, flags }),
            Err(error) => Err(error),
        }
    } else if text_begins_with(path.as_str(), "git@") {
        Err(ArgsError::SshNotSupported)
    } else {
        Ok(AppArgs { location: GitLocation::Local(path.clone()), flags })
    }
}

} // verus!
