//! The command line: which file to check, which dictionary to check it
//! against, and whether the report shows line numbers.
//!
//! The arguments are parsed by the crate getopts. What that crate does is
//! not verified here: it is named, and the items that call it say in a few
//! lines each what is taken on trust.

use vstd::prelude::*;

verus! {

/// What can stop the program before it checks anything.
#[derive(Clone, Copy, Debug, PartialEq, Eq, Structural)]
pub enum Error {
    /// The arguments were not understood.
    Arguments,
    /// The dictionary could not be read.
    Dictionary,
    /// The file to check could not be read.
    Input,
}

impl Error {
    /// The exit code of the process for this error: never 0, which stands
    /// for success, and different for each error.
    pub fn code(&self) -> (code: i32)
        ensures
            code == match *self {
                Error::Arguments => 1i32,
                Error::Dictionary => 2i32,
                Error::Input => 3i32,
            },
    {
        match self {
            Error::Arguments => 1,
            Error::Dictionary => 2,
            Error::Input => 3,
        }
    }
}

/// The options of getopts, opaque here.
#[verifier::external_type_specification]
#[verifier::external_body]
pub struct ExOptions(getopts::Options);

/// The result of a successful parse by getopts, opaque here.
#[verifier::external_type_specification]
#[verifier::external_body]
pub struct ExMatches(getopts::Matches);

/// The reason for which getopts refused the arguments, opaque here.
#[verifier::external_type_specification]
#[verifier::external_body]
pub struct ExFail(getopts::Fail);

/// The options that `options` holds, in the order of their declaration:
/// for each its short name, its long name, and whether it must be given a
/// value.
pub uninterp spec fn declared(options: getopts::Options) -> Seq<(Seq<char>, Seq<char>, bool)>;

/// Whether `options` holds nothing that parsing depends on but what
/// `declared` tells: free arguments may stand anywhere among the options,
/// long names need two dashes, and every option may be left out, may be
/// given once at most, and either must be given a value or takes none.
pub uninterp spec fn plain(options: getopts::Options) -> bool;

/// The free arguments that `matches` holds, in order.
pub uninterp spec fn free_args(matches: getopts::Matches) -> Seq<Seq<char>>;

/// What `matches` holds for each name of an option, short or long: its
/// occurrences in order, each with the value given to it, if any.
pub uninterp spec fn occurrences(matches: getopts::Matches) -> Map<Seq<char>, Seq<Option<Seq<char>>>>;

/// What `Options::parse` makes of `args` where the options are plain and
/// are those of `declared`: nothing where it refuses the arguments, else
/// the free arguments and the occurrences of the options.
pub uninterp spec fn parsed(
    declared: Seq<(Seq<char>, Seq<char>, bool)>,
    args: Seq<Seq<char>>,
) -> Option<(Seq<Seq<char>>, Map<Seq<char>, Seq<Option<Seq<char>>>>)>;

/// Whether getopts takes `short` and `long` as the names of one option: a
/// short name is one ASCII character, a long name has more than one
/// character, and one of the two may be missing.
pub open spec fn valid_names(short: Seq<char>, long: Seq<char>) -> bool {
    &&& short.len() <= 1
    &&& short.len() == 1 ==> (short[0] as u32) < 128
    &&& long.len() != 1
    &&& short.len() + long.len() > 0
}

/// Whether `name` is the short or the long name of one of the options `declared`.
pub open spec fn defines(declared: Seq<(Seq<char>, Seq<char>, bool)>, name: Seq<char>) -> bool {
    &&& name.len() > 0
    &&& exists|i: int|
        0 <= i < declared.len() && ((#[trigger] declared[i]).0 == name || declared[i].1 == name)
}

/// The value of the first occurrence of an option, if it occurs with one.
pub open spec fn first_value(occurrences: Seq<Option<Seq<char>>>) -> Option<Seq<char>> {
    if occurrences.len() > 0 {
        occurrences[0]
    } else {
        None
    }
}

/// `Options::new` of getopts. Trusted: the new value is plain and declares
/// no option.
pub assume_specification[ getopts::Options::new ]() -> (options: getopts::Options)
    ensures
        plain(options),
        declared(options) == Seq::<(Seq<char>, Seq<char>, bool)>::empty(),
;

/// Calls `Options::optopt` of getopts. Trusted: one option that may be
/// left out, may be given once and must be given a value is declared after
/// those that were there, and nothing else changes, so that the options
/// are plain if they were. getopts panics on names that `valid_names`
/// leaves out.
#[verifier::external_body]
fn declare_value(options: &mut getopts::Options, short: &str, long: &str, description: &str, hint: &str)
    requires
        valid_names(short@, long@),
    ensures
        plain(*final(options)) == plain(*old(options)),
        declared(*final(options)) == declared(*old(options)).push((short@, long@, true)),
{
    options.optopt(short, long, description, hint);
}

/// Calls `Options::optflag` of getopts. Trusted: one option that may be
/// left out, may be given once and takes no value is declared after those
/// that were there, and nothing else changes, so that the options are
/// plain if they were. getopts panics on names that `valid_names` leaves
/// out.
#[verifier::external_body]
fn declare_flag(options: &mut getopts::Options, short: &str, long: &str, description: &str)
    requires
        valid_names(short@, long@),
    ensures
        plain(*final(options)) == plain(*old(options)),
        declared(*final(options)) == declared(*old(options)).push((short@, long@, false)),
{
    options.optflag(short, long, description);
}

/// Calls `Options::parse` of getopts. Trusted: for plain options the
/// outcome depends on the declared options and the arguments alone, which
/// the name `parsed` says; and where the arguments are accepted, the
/// result holds occurrences for the names of the declared options and for
/// no other. getopts panics on an option declared without a name.
#[verifier::external_body]
fn parse(options: &getopts::Options, args: &Vec<String>) -> (outcome: Result<
    getopts::Matches,
    getopts::Fail,
>)
    requires
        plain(*options),
        forall|i: int|
            0 <= i < declared(*options).len() ==> valid_names(
                (#[trigger] declared(*options)[i]).0,
                declared(*options)[i].1,
            ),
    ensures
        match outcome {
            Ok(matches) => {
                &&& parsed(declared(*options), args.deep_view()) == Some(
                    (free_args(matches), occurrences(matches)),
                )
                &&& forall|name: Seq<char>|
                    occurrences(matches).dom().contains(name) == defines(declared(*options), name)
            },
            Err(_) => parsed(declared(*options), args.deep_view()) is None,
        },
{
    options.parse(args)
}

/// Copies the field `free` of the matches. Trusted: these are the free arguments.
#[verifier::external_body]
fn free_of(matches: &getopts::Matches) -> (free: Vec<String>)
    ensures
        free.deep_view() == free_args(*matches),
{
    matches.free.clone()
}

/// Calls `Matches::opt_str` of getopts. Trusted: the result is the value
/// of the first occurrence of the option, if it occurs with one. getopts
/// panics on a name that no option has.
#[verifier::external_body]
fn value_of(matches: &getopts::Matches, name: &str) -> (value: Option<String>)
    requires
        occurrences(*matches).dom().contains(name@),
    ensures
        value.deep_view() == first_value(occurrences(*matches)[name@]),
{
    matches.opt_str(name)
}

/// Calls `Matches::opt_present` of getopts. Trusted: the result says
/// whether the option occurs. getopts panics on a name that no option has.
#[verifier::external_body]
fn is_present(matches: &getopts::Matches, name: &str) -> (present: bool)
    requires
        occurrences(*matches).dom().contains(name@),
    ensures
        present == (occurrences(*matches)[name@].len() > 0),
{
    matches.opt_present(name)
}

/// What the program was asked to do.
pub struct Command {
    targ_path: String,
    dict_path: String,
    with_lines: bool,
}

/// A command as plain values.
pub struct CommandView {
    pub targ_path: Seq<char>,
    pub dict_path: Seq<char>,
    pub with_lines: bool,
}

impl View for Command {
    type V = CommandView;

    closed spec fn view(&self) -> CommandView {
        CommandView {
            targ_path: self.targ_path@,
            dict_path: self.dict_path@,
            with_lines: self.with_lines,
        }
    }
}

/// The options of the command line: `-w`, `--words` with the path of the
/// dictionary, `-p`, `--print` and `-l`, `--lines`.
pub open spec fn options() -> Seq<(Seq<char>, Seq<char>, bool)> {
    seq![("w"@, "words"@, true), ("p"@, "print"@, false), ("l"@, "lines"@, false)]
}

/// The command that parsed arguments stand for: there is one where
/// exactly one free argument was given, which names the file to check; the
/// dictionary is the one named with `-w`, or else the default.
pub open spec fn command_of(
    free: Seq<Seq<char>>,
    words: Option<Seq<char>>,
    lines: bool,
    default_dict_path: Seq<char>,
) -> Option<CommandView> {
    if free.len() == 1 {
        Some(
            CommandView {
                targ_path: free[0],
                dict_path: match words {
                    Some(path) => path,
                    None => default_dict_path,
                },
                with_lines: lines,
            },
        )
    } else {
        None
    }
}

/// The command that the arguments `args` stand for, if any.
pub open spec fn command_from(args: Seq<Seq<char>>, default_dict_path: Seq<char>) -> Option<
    CommandView,
> {
    match parsed(options(), args) {
        Some((free, found)) => command_of(
            free,
            first_value(found["w"@]),
            found["l"@].len() > 0,
            default_dict_path,
        ),
        None => None,
    }
}

impl Command {
    /// The command that parsed arguments stand for, or `Error::Arguments`
    /// where the free arguments are not exactly one.
    pub fn from_parts(
        free: Vec<String>,
        words: Option<String>,
        lines: bool,
        default_dict_path: &str,
    ) -> (outcome: Result<Command, Error>)
        ensures
            match outcome {
                Ok(command) => command_of(free.deep_view(), words.deep_view(), lines, default_dict_path@)
                    == Some(command@),
                Err(error) => error == Error::Arguments && command_of(
                    free.deep_view(),
                    words.deep_view(),
                    lines,
                    default_dict_path@,
                ) is None,
            },
    {
        let mut free = free;
        if free.len() != 1 {
            return Err(Error::Arguments);
        }
        let targ_path = free.pop().unwrap();
        let dict_path = match words {
            Some(path) => path,
            None => String::from_str(default_dict_path),
        };
        Ok(Command { targ_path, dict_path, with_lines: lines })
    }

    /// The command that the arguments of the program stand for, the name of
    /// the program not among them, or `Error::Arguments` where getopts
    /// refuses them or the free arguments are not exactly one.
    pub fn from_args(args: &Vec<String>, default_dict_path: &str) -> (outcome: Result<
        Command,
        Error,
    >)
        ensures
            match outcome {
                Ok(command) => command_from(args.deep_view(), default_dict_path@) == Some(command@),
                Err(error) => error == Error::Arguments && command_from(
                    args.deep_view(),
                    default_dict_path@,
                ) is None,
            },
    {
        proof {
            reveal_strlit("w");
            reveal_strlit("words");
            reveal_strlit("p");
            reveal_strlit("print");
            reveal_strlit("l");
            reveal_strlit("lines");
        }
        let mut known = getopts::Options::new();
        declare_value(&mut known, "w", "words", "set dictionary file path", "WORDS");
        declare_flag(&mut known, "p", "print", "print dictionary contents");
        declare_flag(&mut known, "l", "lines", "print line numbers");
        assert(declared(known) =~= options());
        match parse(&known, args) {
            Ok(matches) => {
                assert(defines(options(), "w"@));
                assert(defines(options(), "l"@));
                let free = free_of(&matches);
                let words = value_of(&matches, "w");
                let lines = is_present(&matches, "l");
                Command::from_parts(free, words, lines, default_dict_path)
            },
            Err(_) => Err(Error::Arguments),
        }
    }

    /// The path of the dictionary.
    pub fn dict_path(&self) -> (path: &str)
        ensures
            path@ == self@.dict_path,
    {
        self.dict_path.as_str()
    }

    /// The path of the file to check.
    pub fn targ_path(&self) -> (path: &str)
        ensures
            path@ == self@.targ_path,
    {
        self.targ_path.as_str()
    }

    /// Whether the report shows line numbers.
    pub fn with_lines(&self) -> (shown: bool)
        ensures
            shown == self@.with_lines,
    {
        self.with_lines
    }
}

} // verus!
