//! What the program is asked to do, from its command line.
use vstd::prelude::*;

use crate::grammar::str_equal;
use crate::text::string_views;

verus! {

/// The program's modes: print help, or run the console.
#[derive(Clone, Copy, Debug, PartialEq, Eq, Structural)]
pub enum Config {
    Help(),
    Repl(),
}

/// Why the command line asks for nothing this program does.
#[derive(Clone, Copy, Debug, PartialEq, Eq, Structural)]
pub enum ConfigError {
    NotEnoughArguments,
    InvalidArgument,
}

/// The text of a command-line error.
pub open spec fn config_error_text(e: ConfigError) -> Seq<char> {
    match e {
        ConfigError::NotEnoughArguments => "Not enough arguments"@,
        ConfigError::InvalidArgument => "Invalid argument"@,
    }
}

impl ConfigError {
    pub fn message(&self) -> (r: &'static str)
        ensures
            r@ == config_error_text(*self),
    {
        match self {
            ConfigError::NotEnoughArguments => "Not enough arguments",
            ConfigError::InvalidArgument => "Invalid argument",
        }
    }
}

/// The mode that the first argument after the program name asks for.
pub open spec fn config_from(args: Seq<Seq<char>>) -> Result<Config, ConfigError> {
    if args.len() < 2 {
        Err(ConfigError::NotEnoughArguments)
    } else if args[1] == "help"@ || args[1] == "-h"@ || args[1] == "--help"@ {
        Ok(Config::Help())
    } else if args[1] == "repl"@ {
        Ok(Config::Repl())
    } else {
        Err(ConfigError::InvalidArgument)
    }
}

impl Config {
    /// Reads the mode from the arguments, the program name first.
    pub fn new(args: &[String]) -> (r: Result<Config, ConfigError>)
        ensures
            r == config_from(string_views(args@)),
    {
        if args.len() < 2 {
            return Err(ConfigError::NotEnoughArguments);
        }
        assert(string_views(args@)[1] == args@[1]@);
        let a = args[1].as_str();
        if str_equal(a, "help") || str_equal(a, "-h") || str_equal(a, "--help") {
            Ok(Config::Help())
        } else if str_equal(a, "repl") {
            Ok(Config::Repl())
        } else {
            Err(ConfigError::InvalidArgument)
        }
    }
}

} // verus!
