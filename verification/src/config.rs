//! The command line: which options it knows, and what a list of arguments
//! asks for.

use crate::error::{ConfigurationError, ConfigurationErrorView, Flag};
use crate::numeral::{parse_u32, parse_u32_spec};
use crate::port::{port_of_arg, PortSpec, DEFAULT_BAUD, MAX_PORTS};
use vstd::prelude::*;
use vstd::string::*;

verus! {

/// What the command line asks to record: where to, and from which ports.
#[derive(Clone, Debug, PartialEq, Eq)]
pub struct Args {
    /// The directory in which the output store is made.
    pub directory: String,
    /// The baud rate of the ports that name none of their own.
    pub default_baud: u32,
    /// The port arguments, in the order given: `<identifier>` or
    /// `<identifier>,<baud>`.
    pub ports: Vec<String>,
}

/// The texts of `strings`, in the same order.
pub open spec fn texts(strings: Seq<String>) -> Seq<Seq<char>> {
    strings.map_values(|s: String| s@)
}

/// The settings of a run as contracts see them.
pub struct ArgsView {
    pub directory: Seq<char>,
    pub default_baud: u32,
    pub ports: Seq<Seq<char>>,
}

impl View for Args {
    type V = ArgsView;

    open spec fn view(&self) -> ArgsView {
        ArgsView {
            directory: self.directory@,
            default_baud: self.default_baud,
            ports: texts(self.ports@),
        }
    }
}

/// What a command line asks for.
#[derive(Clone, Debug, PartialEq, Eq)]
pub enum Invocation {
    /// Record with these settings.
    Run(Args),
    /// Print the usage and do nothing else.
    Help,
}

/// What a command line asks for, as contracts see it.
pub enum InvocationView {
    Run(ArgsView),
    Help,
}

impl View for Invocation {
    type V = InvocationView;

    open spec fn view(&self) -> InvocationView {
        match self {
            Invocation::Run(args) => InvocationView::Run(args@),
            Invocation::Help => InvocationView::Help,
        }
    }
}

/// The outcome of reading a command line, as contracts see it.
pub open spec fn outcome_view(outcome: Result<Invocation, ConfigurationError>) -> Result<
    InvocationView,
    ConfigurationErrorView,
> {
    match outcome {
        Ok(invocation) => Ok(invocation@),
        Err(error) => Err(error@),
    }
}

/// Whether `arg` asks for the usage.
pub open spec fn is_help(arg: Seq<char>) -> bool {
    arg == "-h"@ || arg == "--help"@
}

/// The option that `arg` names, if it names one that takes a value.
pub open spec fn flag_of(arg: Seq<char>) -> Option<Flag> {
    if arg == "-d"@ || arg == "--directory"@ {
        Some(Flag::Directory)
    } else if arg == "-b"@ || arg == "--default-baud"@ {
        Some(Flag::DefaultBaud)
    } else if arg == "-p"@ || arg == "--port"@ {
        Some(Flag::Port)
    } else {
        None
    }
}

/// The settings before any argument is read.
pub open spec fn no_settings() -> ArgsView {
    ArgsView { directory: Seq::empty(), default_baud: DEFAULT_BAUD, ports: Seq::empty() }
}

/// The settings after the option `flag` was given `value`: a directory or a
/// default baud rate takes the place of an earlier one, a port joins those
/// before it. A default baud rate that is no number is an error.
pub open spec fn with_option(settings: ArgsView, flag: Flag, value: Seq<char>) -> Result<
    ArgsView,
    ConfigurationErrorView,
> {
    match flag {
        Flag::Directory => Ok(ArgsView { directory: value, ..settings }),
        Flag::DefaultBaud => match parse_u32_spec(value) {
            Some(baud) => Ok(ArgsView { default_baud: baud, ..settings }),
            None => Err(ConfigurationErrorView::InvalidBaud(value)),
        },
        Flag::Port => Ok(ArgsView { ports: settings.ports.push(value), ..settings }),
    }
}

/// Reads the arguments from place `at` on, left to right, with `settings`
/// gathered so far. The first of these ends the reading: a request for the
/// usage, an argument that is no option, an option without its value, a
/// value that is refused.
pub open spec fn scan(args: Seq<Seq<char>>, at: int, settings: ArgsView) -> Result<
    InvocationView,
    ConfigurationErrorView,
>
    decreases args.len() - at,
{
    if at < 0 || at >= args.len() {
        Ok(InvocationView::Run(settings))
    } else if is_help(args[at]) {
        Ok(InvocationView::Help)
    } else {
        match flag_of(args[at]) {
            None => Err(ConfigurationErrorView::UnknownArgument(args[at])),
            Some(flag) => {
                if at + 1 >= args.len() {
                    Err(ConfigurationErrorView::MissingValue(flag))
                } else {
                    match with_option(settings, flag, args[at + 1]) {
                        Err(error) => Err(error),
                        Ok(next) => scan(args, at + 2, next),
                    }
                }
            },
        }
    }
}

/// Whether settings can be run: a directory is named, and one to eight
/// ports.
pub open spec fn complete(settings: ArgsView) -> Result<InvocationView, ConfigurationErrorView> {
    if settings.directory.len() == 0 {
        Err(ConfigurationErrorView::MissingDirectory)
    } else if settings.ports.len() == 0 {
        Err(ConfigurationErrorView::NoPorts)
    } else if settings.ports.len() > MAX_PORTS {
        Err(ConfigurationErrorView::TooManyPorts)
    } else {
        Ok(InvocationView::Run(settings))
    }
}

/// What the command line `args` asks for; its first entry is the name of
/// the program and is not read.
pub open spec fn parse_args_spec(args: Seq<Seq<char>>) -> Result<
    InvocationView,
    ConfigurationErrorView,
> {
    match scan(args, 1, no_settings()) {
        Ok(InvocationView::Run(settings)) => complete(settings),
        other => other,
    }
}

/// Whether two strings hold the same text.
fn same_text(a: &str, b: &str) -> (same: bool)
    ensures
        same == (a@ == b@),
{
    let n: usize = a.unicode_len();
    if n != b.unicode_len() {
        return false;
    }
    let mut i: usize = 0;
    while i < n
        invariant
            i <= n,
            n == a@.len(),
            n == b@.len(),
            forall|j: int| 0 <= j < i ==> a@[j] == b@[j],
        decreases n - i,
    {
        if a.get_char(i) != b.get_char(i) {
            return false;
        }
        i = i + 1;
    }
    assert(a@ =~= b@);
    true
}

/// Whether `arg` asks for the usage.
fn asks_help(arg: &str) -> (help: bool)
    ensures
        help == is_help(arg@),
{
    same_text(arg, "-h") || same_text(arg, "--help")
}

/// The option that `arg` names, if it names one that takes a value.
fn option_named(arg: &str) -> (flag: Option<Flag>)
    ensures
        flag == flag_of(arg@),
{
    if same_text(arg, "-d") || same_text(arg, "--directory") {
        Some(Flag::Directory)
    } else if same_text(arg, "-b") || same_text(arg, "--default-baud") {
        Some(Flag::DefaultBaud)
    } else if same_text(arg, "-p") || same_text(arg, "--port") {
        Some(Flag::Port)
    } else {
        None
    }
}

/// Reads the command line `args`, whose first entry is the name of the
/// program. Options are `-d`/`--directory`, `-b`/`--default-baud` and
/// `-p`/`--port`, each followed by its value, and `-h`/`--help`. The
/// arguments are read from left to right and the first fault found is the
/// one returned; a run needs a directory and one to eight ports.
pub fn parse_args(args: &Vec<String>) -> (outcome: Result<Invocation, ConfigurationError>)
    ensures
        outcome_view(outcome) == parse_args_spec(texts(args@)),
{
    let ghost all = texts(args@);
    let count: usize = args.len();
    let mut directory = String::new();
    let mut default_baud: u32 = DEFAULT_BAUD;
    let mut ports: Vec<String> = Vec::new();
    let mut at: usize = 1;
    assert(texts(ports@) =~= Seq::<Seq<char>>::empty());
    while at < count
        invariant
            1 <= at,
            count == args.len(),
            all == texts(args@),
            scan(
                all,
                at as int,
                (ArgsView { directory: directory@, default_baud, ports: texts(ports@) }),
            ) == scan(all, 1, no_settings()),
        decreases count - at,
    {
        let ghost settings = ArgsView { directory: directory@, default_baud, ports: texts(ports@) };
        let arg: &str = args[at].as_str();
        if asks_help(arg) {
            return Ok(Invocation::Help);
        }
        let flag: Flag = match option_named(arg) {
            Some(flag) => flag,
            None => {
                return Err(ConfigurationError::UnknownArgument(args[at].clone()));
            },
        };
        if at + 1 >= count {
            return Err(ConfigurationError::MissingValue(flag));
        }
        let value: &String = &args[at + 1];
        match flag {
            Flag::Directory => {
                directory = value.clone();
            },
            Flag::DefaultBaud => {
                match parse_u32(value.as_str()) {
                    Some(baud) => {
                        default_baud = baud;
                    },
                    None => {
                        return Err(ConfigurationError::InvalidBaud(value.clone()));
                    },
                }
            },
            Flag::Port => {
                ports.push(value.clone());
                assert(texts(ports@) =~= settings.ports.push(value@));
            },
        }
        at = at + 2;
    }
    if directory.as_str().is_empty() {
        return Err(ConfigurationError::MissingDirectory);
    }
    if ports.len() == 0 {
        return Err(ConfigurationError::NoPorts);
    }
    if ports.len() > MAX_PORTS {
        return Err(ConfigurationError::TooManyPorts);
    }
    Ok(Invocation::Run(Args { directory, default_baud, ports }))
}

/// The ports that the settings `args` name, each with its own baud rate or
/// the default, in the order in which they were given.
pub fn resolve_ports(args: &Args) -> (ports: Vec<PortSpec>)
    ensures
        ports.len() == args.ports.len(),
        forall|i: int|
            0 <= i < ports.len() ==> (#[trigger] ports[i])@ == port_of_arg(
                args.ports[i]@,
                args.default_baud,
            ),
{
    let mut ports: Vec<PortSpec> = Vec::new();
    let mut i: usize = 0;
    while i < args.ports.len()
        invariant
            i <= args.ports.len(),
            ports.len() == i,
            forall|j: int|
                0 <= j < i ==> (#[trigger] ports[j])@ == port_of_arg(
                    args.ports[j]@,
                    args.default_baud,
                ),
        decreases args.ports.len() - i,
    {
        ports.push(PortSpec::from_arg(args.ports[i].as_str(), args.default_baud));
        i = i + 1;
    }
    ports
}

/// Settings that are run name a directory and one to eight ports; a command
/// line that gives more than eight ports, and asks for no usage, is refused.
pub proof fn lemma_run_is_complete(args: Seq<Seq<char>>)
    ensures
        parse_args_spec(args) matches Ok(InvocationView::Run(settings)) ==> {
            &&& settings.directory.len() > 0
            &&& 1 <= settings.ports.len() <= MAX_PORTS
        },
        scan(args, 1, no_settings()) matches Ok(InvocationView::Run(settings))
            && settings.ports.len() > MAX_PORTS ==> parse_args_spec(args) is Err,
{
}

} // verus!
