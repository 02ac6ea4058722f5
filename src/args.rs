use vstd::prelude::*;
use vstd::string::to_string_from_display_ensures_for_str;

verus! {

/// What the command line asks for.
#[derive(Clone, Copy, Debug, PartialEq, Eq, Structural)]
pub enum Arguments {
    /// No usable argument: show the usage.
    Empty,
    /// `-v` or `--version`.
    Version,
    /// `-h` or `--help`.
    Help,
    /// A path to a dump.
    Path,
}

/// Whether `a` is one of the two spellings of the version flag.
pub open spec fn is_version_flag(a: Seq<char>) -> bool {
    a == "-v"@ || a == "--version"@
}

/// Whether `a` is one of the two spellings of the help flag.
pub open spec fn is_help_flag(a: Seq<char>) -> bool {
    a == "-h"@ || a == "--help"@
}

/// Classifies a flag, or `other` where `a` is no flag.
pub open spec fn classify(a: Seq<char>, other: Arguments) -> Arguments {
    if is_version_flag(a) {
        Arguments::Version
    } else if is_help_flag(a) {
        Arguments::Help
    } else {
        other
    }
}

fn is_version(a: &String) -> (r: bool)
    ensures
        r == is_version_flag(a@),
{
    broadcast use to_string_from_display_ensures_for_str;
    *a == "-v".to_string() || *a == "--version".to_string()
}

fn is_help(a: &String) -> (r: bool)
    ensures
        r == is_help_flag(a@),
{
    broadcast use to_string_from_display_ensures_for_str;
    *a == "-h".to_string() || *a == "--help".to_string()
}

/// Classifies the arguments that follow the program name: only the first
/// one counts. A version or help flag is recognised; anything else is taken
/// as a path. No argument at all is `Empty`.
pub fn get_args(args: &Vec<String>) -> (r: Arguments)
    ensures
        args.len() == 0 ==> r == Arguments::Empty,
        args.len() > 0 ==> r == classify(args[0]@, Arguments::Path),
{
    if args.len() == 0 {
        Arguments::Empty
    } else if is_version(&args[0]) {
        Arguments::Version
    } else if is_help(&args[0]) {
        Arguments::Help
    } else {
        Arguments::Path
    }
}

/// Like `get_args`, but a first argument that is no flag counts as a path
/// only where it names an existing file (`first_is_file`); otherwise the
/// usage is shown.
pub fn get_args_type(args: &Vec<String>, first_is_file: bool) -> (r: Arguments)
    ensures
        args.len() == 0 ==> r == Arguments::Empty,
        args.len() > 0 ==> r == classify(
            args[0]@,
            if first_is_file {
                Arguments::Path
            } else {
                Arguments::Empty
            },
        ),
{
    match get_args(args) {
        Arguments::Path => if first_is_file {
            Arguments::Path
        } else {
            Arguments::Empty
        },
        other => other,
    }
}

/// The first argument after the program name, or the empty string.
pub fn get_path(args: &Vec<String>) -> (r: String)
    ensures
        args.len() == 0 ==> r@ == Seq::<char>::empty(),
        args.len() > 0 ==> r@ == args[0]@,
{
    if args.len() == 0 {
        String::new()
    } else {
        args[0].clone()
    }
}

/// Whether the arguments call for the waveform screens rather than the
/// usage, help or version screen.
pub fn wants_plot(a: Arguments) -> (r: bool)
    ensures
        r == (a == Arguments::Path),
{
    a == Arguments::Path
}

} // verus!
