//! The flags of the daemon.
use vstd::prelude::*;

use crate::index::DEFAULT_MAX_ITEMS;
use crate::text::{
    decimal, parse_usize, parsed_usize, push_chars, push_decimal, same_str, strings, strip_prefix,
    to_chars,
};

verus! {

/// What the daemon is told to do.
#[derive(Clone, Copy, Debug, PartialEq, Eq, Structural)]
pub struct Config {
    /// How many text entries to keep.
    pub max_items: usize,
    /// Whether to capture the `PRIMARY` selection too.
    pub watch_primary: bool,
}

/// What the flags come to.
#[derive(Clone, Copy, Debug, PartialEq, Eq, Structural)]
pub enum ParsedArgs {
    /// Run like this.
    Run(Config),
    /// Show the help text and end.
    Help,
}

/// How the daemon runs where no flag says otherwise.
pub open spec fn default_config() -> Config {
    Config { max_items: DEFAULT_MAX_ITEMS, watch_primary: false }
}

/// What flags come to, in their order, for a daemon that would else run like `config`. A number
/// that cannot be read, and any other argument, changes nothing; behind a request for help nothing
/// counts.
pub open spec fn parsed_args(config: Config, args: Seq<Seq<char>>) -> ParsedArgs
    decreases args.len(),
{
    if args.len() == 0 {
        ParsedArgs::Run(config)
    } else {
        let arg = args[0];
        let rest = args.skip(1);
        if "--max-items="@.is_prefix_of(arg) {
            match parsed_usize(arg.skip("--max-items="@.len() as int)) {
                Some(n) => parsed_args(Config { max_items: n, ..config }, rest),
                None => parsed_args(config, rest),
            }
        } else if arg == "--watch-primary"@ {
            parsed_args(Config { watch_primary: true, ..config }, rest)
        } else if arg == "-h"@ || arg == "--help"@ {
            ParsedArgs::Help
        } else {
            parsed_args(config, rest)
        }
    }
}

/// Reads the flags, without the name of the program.
pub fn parse_args(args: &Vec<String>) -> (r: ParsedArgs)
    ensures
        r == parsed_args(default_config(), strings(args@)),
{
    let mut config = Config { max_items: DEFAULT_MAX_ITEMS, watch_primary: false };
    let ghost all = strings(args@);
    assert(all.skip(0) == all);
    for i in 0..args.len()
        invariant
            all == strings(args@),
            parsed_args(config, all.skip(i as int)) == parsed_args(default_config(), all),
    {
        let arg = to_chars(args[i].as_str());
        proof {
            assert(all.skip(i as int)[0] == arg@);
            assert(all.skip(i as int).skip(1) == all.skip(i + 1));
        }
        match strip_prefix(arg.as_slice(), "--max-items=") {
            Some(value) => {
                if let Some(n) = parse_usize(value) {
                    config.max_items = n;
                }
            },
            None => {
                if same_str(args[i].as_str(), "--watch-primary") {
                    config.watch_primary = true;
                } else if same_str(args[i].as_str(), "-h") || same_str(
                    args[i].as_str(),
                    "--help",
                ) {
                    return ParsedArgs::Help;
                }
            },
        }
    }
    assert(all.skip(all.len() as int) =~= seq![]);
    ParsedArgs::Run(config)
}

/// The help text.
pub open spec fn help() -> Seq<char> {
    "clipdmenud [--max-items=N] [--watch-primary]\n\n"@
        + "--max-items=N     keep at most N text entries (default "@ + decimal(
        DEFAULT_MAX_ITEMS as nat,
    ) + ")\n--watch-primary   also capture the PRIMARY (mouse-select) selection"@
}

/// The help text.
pub fn help_text() -> (r: String)
    ensures
        r@ == help(),
{
    let mut out = String::new();
    push_chars(&mut out, to_chars("clipdmenud [--max-items=N] [--watch-primary]\n\n").as_slice());
    push_chars(
        &mut out,
        to_chars("--max-items=N     keep at most N text entries (default ").as_slice(),
    );
    push_decimal(&mut out, DEFAULT_MAX_ITEMS as u64);
    push_chars(
        &mut out,
        to_chars(
            ")\n--watch-primary   also capture the PRIMARY (mouse-select) selection",
        ).as_slice(),
    );
    assert(out@ =~= help());
    out
}

// ---------------------------------------------------------------------------------------------
// Laws
// ---------------------------------------------------------------------------------------------

/// The number behind `--max-items=` is the number of entries that the daemon keeps, unless a later
/// flag gives another.
pub proof fn law_max_items_is_taken(config: Config, n: nat, rest: Seq<Seq<char>>)
    requires
        n <= usize::MAX,
    ensures
        parsed_args(config, seq!["--max-items="@ + decimal(n)] + rest) == parsed_args(
            Config { max_items: n as usize, ..config },
            rest,
        ),
{
    let flag = "--max-items="@ + decimal(n);
    let args = seq![flag] + rest;
    assert(args[0] == flag);
    assert(args.skip(1) =~= rest);
    assert("--max-items="@.is_prefix_of(flag));
    assert(flag.skip("--max-items="@.len() as int) =~= decimal(n));
    crate::text::law_decimal_comes_back(n);
}

/// The flags are taken one by one: `--watch-primary` turns the second selection on, a number that
/// can be read behind `--max-items=` is taken and any other changes nothing, and a request for help
/// ends it, whatever follows. An argument that is none of these changes nothing.
pub proof fn law_flags_are_taken_one_by_one(
    config: Config,
    arg: Seq<char>,
    value: Seq<char>,
    rest: Seq<Seq<char>>,
)
    ensures
        parsed_args(config, seq![]) == ParsedArgs::Run(config),
        parsed_args(config, seq!["--watch-primary"@] + rest) == parsed_args(
            Config { max_items: config.max_items, watch_primary: true },
            rest,
        ),
        parsed_args(config, seq!["--max-items="@ + value] + rest) == parsed_args(
            Config {
                max_items: match parsed_usize(value) {
                    Some(n) => n,
                    None => config.max_items,
                },
                watch_primary: config.watch_primary,
            },
            rest,
        ),
        parsed_args(config, seq!["-h"@] + rest) == ParsedArgs::Help,
        parsed_args(config, seq!["--help"@] + rest) == ParsedArgs::Help,
        !"--max-items="@.is_prefix_of(arg) && arg != "--watch-primary"@ && arg != "-h"@ && arg
            != "--help"@ ==> parsed_args(config, seq![arg] + rest) == parsed_args(config, rest),
{
    reveal_strlit("--max-items=");
    reveal_strlit("--watch-primary");
    reveal_strlit("-h");
    reveal_strlit("--help");
    let number = "--max-items="@ + value;
    assert(number.skip("--max-items="@.len() as int) =~= value);
    assert("--max-items="@.is_prefix_of(number));
    assert("--max-items="@[2] == 'm');
    assert("--watch-primary"@[2] == 'w');
    assert("--help"@[2] == 'h');
    assert((seq!["--watch-primary"@] + rest).skip(1) =~= rest);
    assert((seq![number] + rest).skip(1) =~= rest);
    assert((seq!["-h"@] + rest).skip(1) =~= rest);
    assert((seq!["--help"@] + rest).skip(1) =~= rest);
    assert((seq![arg] + rest).skip(1) =~= rest);
    assert((seq!["--watch-primary"@] + rest)[0] == "--watch-primary"@);
    assert((seq![number] + rest)[0] == number);
    assert((seq!["-h"@] + rest)[0] == "-h"@);
    assert((seq!["--help"@] + rest)[0] == "--help"@);
    assert((seq![arg] + rest)[0] == arg);
    assert(Config { max_items: config.max_items, ..config } == config);
}

/// Without flags the daemon keeps 200 entries and watches the clipboard only. The help text names
/// both flags and that number.
pub proof fn law_defaults()
    ensures
        default_config().max_items == 200,
        !default_config().watch_primary,
        help() == "clipdmenud [--max-items=N] [--watch-primary]\n\n"@
            + "--max-items=N     keep at most N text entries (default "@ + "200"@
            + ")\n--watch-primary   also capture the PRIMARY (mouse-select) selection"@,
{
    reveal_strlit("200");
    reveal_with_fuel(decimal, 3);
    assert(decimal(200) =~= "200"@);
}

}
