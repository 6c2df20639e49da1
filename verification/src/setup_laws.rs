//! What holds of the command line and of the configuration.

use vstd::prelude::*;

use crate::cli;
use crate::cli::{parse_args, ArgsError, RuntimeOptions};
use crate::config::{validate_config, Config};
use crate::net::SocketAddr;
use crate::reading;
use crate::text;

verus! {

/// The program starts where each argument is one of its two switches, and then the last one
/// decides. Without any no resource is split.
pub proof fn the_last_switch_decides(
    args: &[&str],
    parsed: Result<RuntimeOptions, ArgsError>,
)
    requires
        call_ensures(parse_args, (args,), parsed),
        forall|i: int|
            0 <= i < args@.len() ==> (#[trigger] args@[i])@ == "--range-split"@ || args@[i]@
                == "--no-range-split"@,
    ensures
        parsed is Ok,
        args@.len() == 0 ==> !parsed->Ok_0.range_split_enabled,
        args@.len() > 0 && args@.last()@ == "--range-split"@ ==> parsed->Ok_0.range_split_enabled,
        args@.len() > 0 && args@.last()@ == "--no-range-split"@
            ==> !parsed->Ok_0.range_split_enabled,
{
    reveal_strlit("--range-split");
    reveal_strlit("--no-range-split");
    assert("--range-split"@.len() != "--no-range-split"@.len());
    match parsed {
        Ok(_) => {},
        Err(ArgsError::Help) => {
            let at = choose|at: int| #[trigger]
                cli::first_other(args@, at) && cli::asks_help(args@[at]@);
            assert(args@[at]@ == "--range-split"@ || args@[at]@ == "--no-range-split"@);
        },
        Err(ArgsError::Unknown { argument }) => {
            let at = choose|at: int| #[trigger]
                cli::first_other(args@, at) && !cli::asks_help(args@[at]@) && argument@
                    == args@[at]@;
            assert(args@[at]@ == "--range-split"@ || args@[at]@ == "--no-range-split"@);
        },
    }
}

/// The first argument that is no switch keeps the program from starting: a request for help is
/// answered, and anything else is named.
pub proof fn the_first_other_argument_is_refused(
    args: &[&str],
    parsed: Result<RuntimeOptions, ArgsError>,
    at: int,
)
    requires
        call_ensures(parse_args, (args,), parsed),
        0 <= at < args@.len(),
        args@[at]@ != "--range-split"@,
        args@[at]@ != "--no-range-split"@,
        forall|i: int|
            0 <= i < at ==> (#[trigger] args@[i])@ == "--range-split"@ || args@[i]@
                == "--no-range-split"@,
    ensures
        parsed is Err,
        args@[at]@ == "--help"@ || args@[at]@ == "-h"@ ==> parsed->Err_0 is Help,
        args@[at]@ != "--help"@ && args@[at]@ != "-h"@ ==> parsed->Err_0 is Unknown
            && parsed->Err_0->argument@ == args@[at]@,
{
    match parsed {
        Ok(_) => {
            assert(cli::only_switches(args@));
            assert(cli::is_switch(args@[at]@));
        },
        Err(ArgsError::Help) => {
            let other = choose|other: int| #[trigger]
                cli::first_other(args@, other) && cli::asks_help(args@[other]@);
            assert(cli::is_switch(args@[at]@) == false);
            assert(other == at);
        },
        Err(ArgsError::Unknown { argument }) => {
            let other = choose|other: int| #[trigger]
                cli::first_other(args@, other) && !cli::asks_help(args@[other]@) && argument@
                    == args@[other]@;
            assert(cli::is_switch(args@[at]@) == false);
            assert(other == at);
        },
    }
}

/// Why the program does not start is told by the argument, or by how the program is used.
pub proof fn refusals_name_the_argument(error: &ArgsError, text: String)
    requires
        call_ensures(ArgsError::to_string, (error,), text),
    ensures
        *error is Help ==> text@
            == "usage: mnic-cli [--range-split|--no-range-split]\ndefault: range split is OFF"@,
        *error is Unknown ==> text@ == "unknown argument: "@ + error->argument@,
{
}

/// A configuration is accepted where it names two interfaces, and refused with their number
/// otherwise.
pub proof fn configurations_name_two_interfaces(
    config: &Config,
    checked: Result<Option<String>, String>,
)
    requires
        call_ensures(validate_config, (config,), checked),
    ensures
        checked is Ok <==> config.nics@.len() == 2,
        checked is Err ==> exists|count: Seq<char>|
            checked->Err_0@ == #[trigger] ("config must contain exactly 2 [[nics]] entries, got "@
                + count) && reading::reads_as(count, config.nics@.len()),
{
    text::lemma_decimal_number(config.nics@.len());
    if checked is Err {
        assert(checked->Err_0@ == "config must contain exactly 2 [[nics]] entries, got "@
            + text::decimal(config.nics@.len()));
    }
}

/// The user is warned exactly where other hosts can reach the listener, with its address.
pub proof fn open_listeners_are_warned_of(
    config: &Config,
    checked: Result<Option<String>, String>,
    loopback: bool,
    address: String,
)
    requires
        call_ensures(validate_config, (config,), checked),
        call_ensures(SocketAddr::is_loopback, (&config.proxy.listen,), loopback),
        call_ensures(SocketAddr::to_text, (&config.proxy.listen,), address),
        checked is Ok,
    ensures
        loopback ==> checked->Ok_0 is None,
        !loopback ==> checked->Ok_0 is Some && checked->Ok_0->0@
            == "[WARN] proxy.listen is not loopback: "@ + address@,
{
}

/// Without a command line no resource is split.
pub proof fn nothing_is_split_by_default(options: RuntimeOptions)
    requires
        call_ensures(<RuntimeOptions as Default>::default, (), options),
    ensures
        !options.range_split_enabled,
{
}

} // verus!
