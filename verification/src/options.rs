//! The options of a run, and how the arguments resolve to them.

use crate::error::{RenumberError, UsageError};
use crate::pattern::{compile, pattern_compiles, regex_source, source_text};
use crate::text::text_eq;
use vstd::prelude::*;
use vstd::string::*;

verus! {

/// What a run does with each planned rename.
#[derive(Clone, Copy, Debug, PartialEq, Eq, Structural)]
pub enum Action {
    /// Reports the plan and changes nothing.
    ReportOnly,
    /// Copies each file to its new name and keeps the old one.
    Copy,
    /// Moves each file to its new name.
    Move,
}

/// The options of one run.  They do not change once resolved.
#[derive(Debug)]
pub struct Options {
    /// What to do with each planned rename.
    pub action: Action,
    /// The compiled match pattern.
    pub pattern: regex::Regex,
    /// The directory to scan, and to write to.
    pub dir: String,
    /// What each output name begins with.
    pub prefix: String,
    /// What each output name ends with.
    pub suffix: String,
}

/// The options of one run as plain values.
pub struct OptionsView {
    /// What to do with each planned rename.
    pub action: Action,
    /// The text of the match pattern.
    pub pattern: Seq<char>,
    /// The directory to scan, and to write to.
    pub dir: Seq<char>,
    /// What each output name begins with.
    pub prefix: Seq<char>,
    /// What each output name ends with.
    pub suffix: Seq<char>,
}

impl View for Options {
    type V = OptionsView;

    open spec fn view(&self) -> OptionsView {
        OptionsView {
            action: self.action,
            pattern: regex_source(self.pattern),
            dir: self.dir@,
            prefix: self.prefix@,
            suffix: self.suffix@,
        }
    }
}

/// What the flags in front of the positional arguments say, and where the
/// positional arguments begin.
pub struct Flags {
    /// The action that the last action flag asked for.
    pub action: Action,
    /// The pattern that the last `--match` brought.
    pub pattern: String,
    /// The index of the first argument that is no flag.
    pub rest: usize,
}

/// The flags as plain values.
pub struct FlagsView {
    /// The action that the last action flag asked for.
    pub action: Action,
    /// The pattern that the last `--match` brought.
    pub pattern: Seq<char>,
    /// The index of the first argument that is no flag.
    pub rest: int,
}

impl View for Flags {
    type V = FlagsView;

    open spec fn view(&self) -> FlagsView {
        FlagsView { action: self.action, pattern: self.pattern@, rest: self.rest as int }
    }
}

/// The pattern of a run without `--match`: it matches every name.
pub open spec fn default_pattern() -> Seq<char> {
    ".*"@
}

/// The flags read from `cursor` on, given what the flags before it said.
/// `--cp` and `--mv` set the action, `--match` takes the argument behind it
/// as the pattern, and the first argument that is none of these ends the
/// flags.  A `--match` with nothing behind it is a fault.
pub open spec fn flags_from(
    args: Seq<Seq<char>>,
    cursor: int,
    action: Action,
    pattern: Seq<char>,
) -> Result<FlagsView, UsageError>
    decreases args.len() - cursor,
{
    if cursor < 0 || cursor >= args.len() {
        Ok(FlagsView { action, pattern, rest: cursor })
    } else if args[cursor] == "--cp"@ {
        flags_from(args, cursor + 1, Action::Copy, pattern)
    } else if args[cursor] == "--mv"@ {
        flags_from(args, cursor + 1, Action::Move, pattern)
    } else if args[cursor] == "--match"@ {
        if cursor + 1 < args.len() {
            flags_from(args, cursor + 2, action, args[cursor + 1])
        } else {
            Err(UsageError::MissingMatchValue)
        }
    } else {
        Ok(FlagsView { action, pattern, rest: cursor })
    }
}

/// The flags of an argument list: read from its beginning, with a report
/// as the action and the pattern that matches everything until a flag says
/// otherwise.
pub open spec fn flags_of(args: Seq<Seq<char>>) -> Result<FlagsView, UsageError> {
    flags_from(args, 0, Action::ReportOnly, default_pattern())
}

/// The three positional arguments that begin at `rest`: directory, output
/// prefix and output suffix.  The first that is missing is the fault.
pub open spec fn positionals(args: Seq<Seq<char>>, rest: int) -> Result<
    (Seq<char>, Seq<char>, Seq<char>),
    UsageError,
> {
    if rest < 0 || rest >= args.len() {
        Err(UsageError::MissingDirectory)
    } else if rest + 1 >= args.len() {
        Err(UsageError::MissingPrefix)
    } else if rest + 2 >= args.len() {
        Err(UsageError::MissingSuffix)
    } else {
        Ok((args[rest], args[rest + 1], args[rest + 2]))
    }
}

/// How an argument list resolves.
pub enum Resolution {
    /// To these options.
    Resolved(OptionsView),
    /// To a fault in the arguments.
    Usage(UsageError),
    /// To a pattern that does not compile.
    BadPattern,
}

/// How an argument list (without the program's name) resolves.  A fault in
/// the flags comes first, then a pattern that does not compile, then a
/// missing positional argument.
pub open spec fn resolution(args: Seq<Seq<char>>) -> Resolution {
    match flags_of(args) {
        Err(e) => Resolution::Usage(e),
        Ok(flags) => if !pattern_compiles(flags.pattern) {
            Resolution::BadPattern
        } else {
            match positionals(args, flags.rest) {
                Err(e) => Resolution::Usage(e),
                Ok((dir, prefix, suffix)) => Resolution::Resolved(
                    OptionsView {
                        action: flags.action,
                        pattern: flags.pattern,
                        dir,
                        prefix,
                        suffix,
                    },
                ),
            }
        },
    }
}

/// Reads the flags at the front of an argument list.
pub fn scan_flags(args: &Vec<String>) -> (r: Result<Flags, UsageError>)
    ensures
        match r {
            Ok(flags) => flags_of(args.deep_view()) == Ok::<FlagsView, UsageError>(flags@),
            Err(e) => flags_of(args.deep_view()) == Err::<FlagsView, UsageError>(e),
        },
        r matches Ok(flags) ==> flags.rest <= args.len(),
{
    let mut action = Action::ReportOnly;
    let mut pattern = String::from_str(".*");
    let mut cursor: usize = 0;
    let ghost texts = args.deep_view();
    while cursor < args.len()
        invariant
            cursor <= args.len(),
            texts == args.deep_view(),
            flags_of(texts) == flags_from(texts, cursor as int, action, pattern@),
        ensures
            cursor <= args.len(),
            flags_of(texts) == Ok::<FlagsView, UsageError>(
                FlagsView { action, pattern: pattern@, rest: cursor as int },
            ),
        decreases args.len() - cursor,
    {
        let arg = args[cursor].as_str();
        assert(arg@ == texts[cursor as int]);
        if text_eq(arg, "--cp") {
            action = Action::Copy;
            cursor = cursor + 1;
        } else if text_eq(arg, "--mv") {
            action = Action::Move;
            cursor = cursor + 1;
        } else if text_eq(arg, "--match") {
            if cursor + 1 < args.len() {
                pattern = args[cursor + 1].clone();
                assert(pattern@ == texts[cursor + 1]);
                cursor = cursor + 2;
            } else {
                return Err(UsageError::MissingMatchValue);
            }
        } else {
            break ;
        }
    }
    Ok(Flags { action, pattern, rest: cursor })
}

/// Puts the options together from the flags, the positional arguments
/// behind them and what compiling the pattern gave.  A pattern that did not
/// compile is reported before a missing positional argument.
pub fn assemble(
    args: &Vec<String>,
    flags: &Flags,
    compiled: Result<regex::Regex, regex::Error>,
) -> (r: Result<Options, RenumberError>)
    ensures
        match compiled {
            Err(e) => r == Err::<Options, RenumberError>(RenumberError::Pattern(e)),
            Ok(re) => match positionals(args.deep_view(), flags.rest as int) {
                Err(e) => r == Err::<Options, RenumberError>(RenumberError::Usage(e)),
                Ok((dir, prefix, suffix)) => {
                    &&& r is Ok
                    &&& r->Ok_0.action == flags.action
                    &&& r->Ok_0.pattern == re
                    &&& r->Ok_0.dir@ == dir
                    &&& r->Ok_0.prefix@ == prefix
                    &&& r->Ok_0.suffix@ == suffix
                },
            },
        },
{
    let pattern = match compiled {
        Ok(re) => re,
        Err(e) => {
            return Err(RenumberError::Pattern(e));
        },
    };
    let rest = flags.rest;
    if rest >= args.len() {
        return Err(RenumberError::Usage(UsageError::MissingDirectory));
    }
    if rest + 1 >= args.len() {
        return Err(RenumberError::Usage(UsageError::MissingPrefix));
    }
    if rest + 2 >= args.len() {
        return Err(RenumberError::Usage(UsageError::MissingSuffix));
    }
    Ok(
        Options {
            action: flags.action,
            pattern,
            dir: args[rest].clone(),
            prefix: args[rest + 1].clone(),
            suffix: args[rest + 2].clone(),
        },
    )
}

/// Resolves an argument list (without the program's name) to the options of
/// a run.
pub fn resolve(args: &Vec<String>) -> (r: Result<Options, RenumberError>)
    ensures
        match resolution(args.deep_view()) {
            Resolution::Resolved(options) => r is Ok && r->Ok_0@ == options,
            Resolution::Usage(e) => r == Err::<Options, RenumberError>(RenumberError::Usage(e)),
            Resolution::BadPattern => r is Err && r->Err_0 is Pattern,
        },
{
    let flags = match scan_flags(args) {
        Ok(flags) => flags,
        Err(e) => {
            return Err(RenumberError::Usage(e));
        },
    };
    let compiled = compile(flags.pattern.as_str());
    assemble(args, &flags, compiled)
}

impl Options {
    /// The line that reports the options: pattern, directory, prefix and
    /// suffix, each behind its label.
    pub open spec fn status_text(self) -> Seq<char> {
        "file_pattern: "@ + self@.pattern + ", dir: "@ + self@.dir + ", prefix: "@ + self@.prefix
            + ", suffix: "@ + self@.suffix
    }

    /// The line that reports the options.
    pub fn status_line(&self) -> (r: String)
        ensures
            r@ == self.status_text(),
    {
        let mut out = String::from_str("file_pattern: ");
        out.append(source_text(&self.pattern));
        out.append(", dir: ");
        out.append(self.dir.as_str());
        out.append(", prefix: ");
        out.append(self.prefix.as_str());
        out.append(", suffix: ");
        out.append(self.suffix.as_str());
        out
    }
}

/// The lines that tell how the program is called.
pub open spec fn usage_text() -> Seq<Seq<char>> {
    seq![
        "Usage: renumber [--cp | --mv] [--match file_regex] <dir> <output_prefix> <output_suffix>"@,
        "By default only prints what it would do. Pass --cp to copy files and rename, or --mv to move files."@,
        "If --match regex includes a capture group, it will try to be parsed as a number and used as the output number, with padding."@,
    ]
}

/// The lines that tell how the program is called, shown with every fault
/// in the arguments.
pub fn usage() -> (r: Vec<String>)
    ensures
        r.deep_view() == usage_text(),
{
    let mut lines: Vec<String> = Vec::new();
    lines.push(
        String::from_str(
            "Usage: renumber [--cp | --mv] [--match file_regex] <dir> <output_prefix> <output_suffix>",
        ),
    );
    lines.push(
        String::from_str(
            "By default only prints what it would do. Pass --cp to copy files and rename, or --mv to move files.",
        ),
    );
    lines.push(
        String::from_str(
            "If --match regex includes a capture group, it will try to be parsed as a number and used as the output number, with padding.",
        ),
    );
    assert(lines.deep_view() =~= usage_text());
    lines
}

} // verus!
