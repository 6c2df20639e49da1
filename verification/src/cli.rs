//! The command line.

use vstd::prelude::*;

use crate::text::same_text;

verus! {

/// What the command line chooses.
#[derive(Debug, Clone, Copy, PartialEq, Eq, Structural)]
pub struct RuntimeOptions {
    pub range_split_enabled: bool,
}

impl Default for RuntimeOptions {
    /// Without arguments no resource is split.
    fn default() -> (options: Self)
        ensures
            !options.range_split_enabled,
    {
        RuntimeOptions { range_split_enabled: false }
    }
}

/// Why the program does not start with the arguments it was given.
#[derive(Debug)]
pub enum ArgsError {
    /// The user asked how the program is used.
    Help,
    /// The program has no such argument.
    Unknown { argument: String },
}

impl ArgsError {
    /// What the user is told.
    pub open spec fn message(self) -> Seq<char> {
        match self {
            ArgsError::Help =>
                "usage: mnic-cli [--range-split|--no-range-split]\ndefault: range split is OFF"@,
            ArgsError::Unknown { argument } => "unknown argument: "@ + argument@,
        }
    }

    /// Writes what the user is told.
    pub fn to_string(&self) -> (text: String)
        ensures
            text@ == self.message(),
    {
        match self {
            ArgsError::Help =>
                "usage: mnic-cli [--range-split|--no-range-split]\ndefault: range split is OFF".to_owned(),
            ArgsError::Unknown { argument } => {
                let mut text = "unknown argument: ".to_owned();
                text.append(argument.as_str());
                text
            },
        }
    }
}

/// Whether an argument asks how the program is used.
pub open spec fn asks_help(argument: Seq<char>) -> bool {
    argument == "--help"@ || argument == "-h"@
}

/// Whether an argument switches range splitting on or off.
pub open spec fn is_switch(argument: Seq<char>) -> bool {
    argument == "--range-split"@ || argument == "--no-range-split"@
}

/// Whether the last of these switches is the one that turns range splitting on. Without any it is
/// off.
pub open spec fn switched_on(arguments: Seq<&str>) -> bool {
    arguments.len() > 0 && arguments.last()@ == "--range-split"@
}

/// Whether `at` is the place of the first argument that is no switch.
pub open spec fn first_other(arguments: Seq<&str>, at: int) -> bool {
    &&& 0 <= at < arguments.len()
    &&& !is_switch(arguments[at]@)
    &&& forall|i: int| 0 <= i < at ==> is_switch((#[trigger] arguments[i])@)
}

/// Whether all arguments are switches.
pub open spec fn only_switches(arguments: Seq<&str>) -> bool {
    forall|i: int| 0 <= i < arguments.len() ==> is_switch((#[trigger] arguments[i])@)
}

/// Reads the arguments of the program, without its name.
pub fn parse_args(args: &[&str]) -> (parsed: Result<RuntimeOptions, ArgsError>)
    ensures
        match parsed {
            Ok(options) => only_switches(args@) && options.range_split_enabled == switched_on(
                args@,
            ),
            Err(ArgsError::Help) => exists|at: int|
                #[trigger] first_other(args@, at) && asks_help(args@[at]@),
            Err(ArgsError::Unknown { argument }) => exists|at: int|
                #[trigger] first_other(args@, at) && !asks_help(args@[at]@) && argument@
                    == args@[at]@,
        },
{
    let mut options = RuntimeOptions { range_split_enabled: false };
    let mut done: usize = 0;
    while done < args.len()
        invariant
            done <= args@.len(),
            forall|i: int| 0 <= i < done ==> is_switch((#[trigger] args@[i])@),
            options.range_split_enabled == switched_on(args@.take(done as int)),
        decreases args@.len() - done,
    {
        let arg = args[done];
        assert(args@.take(done + 1).last() == arg);
        if same_text(arg, "--range-split") {
            options = RuntimeOptions { range_split_enabled: true };
        } else if same_text(arg, "--no-range-split") {
            proof {
                reveal_strlit("--range-split");
                reveal_strlit("--no-range-split");
            }
            options = RuntimeOptions { range_split_enabled: false };
        } else {
            assert(first_other(args@, done as int));
            if same_text(arg, "--help") || same_text(arg, "-h") {
                return Err(ArgsError::Help);
            }
            return Err(ArgsError::Unknown { argument: arg.to_owned() });
        }
        done = done + 1;
    }
    assert(args@.take(args@.len() as int) =~= args@);
    Ok(options)
}

} // verus!
