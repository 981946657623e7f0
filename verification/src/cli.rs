//! The command line of the scraper program.
use vstd::prelude::*;

use crate::text::{str_eq, str_views};

verus! {

/// What the program is asked to do.
#[derive(PartialEq, Eq, Structural, Clone, Copy, Debug)]
pub enum Command {
    /// Scrape the configured domains.
    Scrape,
    /// Search the scraped pages.
    Search,
}

/// The options read from the command line.
#[derive(Clone, Debug)]
pub struct CliOptions {
    /// The configuration file given with `--config` or `-c`, if any.
    pub config_path: Option<String>,
    /// The command, `scrape` unless `search` is given.
    pub command: Command,
}

/// A command line that cannot be read.
#[derive(PartialEq, Eq, Structural, Clone, Copy, Debug)]
pub enum CliError {
    /// `--config` or `-c` is the last argument, with no path after it.
    MissingConfigPath,
}

/// An argument that names the configuration file.
pub open spec fn is_config_flag(a: Seq<char>) -> bool {
    a == "--config"@ || a == "-c"@
}

/// Reads the arguments from index `i` on, with the configuration file and
/// command found so far: `--config`/`-c` takes the next argument as the path
/// (the last such flag wins), `scrape` and `search` set the command (the last
/// one wins), anything else is skipped.
pub open spec fn parse_from(
    args: Seq<Seq<char>>,
    i: int,
    config: Option<Seq<char>>,
    command: Command,
) -> Result<(Option<Seq<char>>, Command), CliError>
    decreases args.len() - i,
{
    if i < 1 || i >= args.len() {
        Ok((config, command))
    } else if is_config_flag(args[i]) {
        if i + 1 < args.len() {
            parse_from(args, i + 2, Some(args[i + 1]), command)
        } else {
            Err(CliError::MissingConfigPath)
        }
    } else if args[i] == "scrape"@ {
        parse_from(args, i + 1, config, Command::Scrape)
    } else if args[i] == "search"@ {
        parse_from(args, i + 1, config, Command::Search)
    } else {
        parse_from(args, i + 1, config, command)
    }
}

/// The options of a command line (the program name first).
pub open spec fn spec_parse_args(args: Seq<Seq<char>>) -> Result<(Option<Seq<char>>, Command), CliError> {
    parse_from(args, 1, None, Command::Scrape)
}

/// The view of the options.
pub open spec fn options_view(o: CliOptions) -> (Option<Seq<char>>, Command) {
    (
        match o.config_path {
            Some(p) => Some(p@),
            None => None,
        },
        o.command,
    )
}

/// Reads the command line of the program: the program name first, then
/// `--config <path>` (or `-c <path>`), `scrape` or `search`, in any order;
/// other arguments are skipped.
pub fn parse_args(args: &Vec<String>) -> (r: Result<CliOptions, CliError>)
    ensures
        match r {
            Ok(o) => spec_parse_args(str_views(args@)) == Ok::<_, CliError>(options_view(o)),
            Err(e) => spec_parse_args(str_views(args@)) == Err::<(Option<Seq<char>>, Command), _>(e),
        },
{
    let ghost a = str_views(args@);
    let mut config: Option<String> = None;
    let mut command = Command::Scrape;
    let mut i: usize = 1;
    while i < args.len()
        invariant
            a == str_views(args@),
            i >= 1,
            spec_parse_args(a) == parse_from(
                a,
                i as int,
                match config {
                    Some(p) => Some(p@),
                    None => None,
                },
                command,
            ),
        decreases args.len() - i,
    {
        let arg = args[i].as_str();
        if str_eq(arg, "--config") || str_eq(arg, "-c") {
            if i + 1 < args.len() {
                config = Some(args[i + 1].clone());
                i += 2;
            } else {
                return Err(CliError::MissingConfigPath);
            }
        } else if str_eq(arg, "scrape") {
            command = Command::Scrape;
            i += 1;
        } else if str_eq(arg, "search") {
            command = Command::Search;
            i += 1;
        } else {
            i += 1;
        }
    }
    Ok(CliOptions { config_path: config, command })
}

/// The query of the `search` command: the third argument (the program name
/// being the first), if there is one.
pub fn search_query(args: &Vec<String>) -> (r: Option<String>)
    ensures
        match r {
            Some(q) => args.len() >= 3 && q@ == args@[2]@,
            None => args.len() < 3,
        },
{
    if args.len() < 3 {
        None
    } else {
        Some(args[2].clone())
    }
}

} // verus!
