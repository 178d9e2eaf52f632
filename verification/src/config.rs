//! The configuration surface: where the schemas are read, where the
//! generated files go, and the feature switches.

use vstd::prelude::*;
use vstd::string::*;
use crate::strutil::str_eq;

verus! {

broadcast use vstd::string::group_string_axioms;

/// The abstract value of a [`Config`].
pub ghost struct ConfigV {
    pub schema_dir: Seq<char>,
    pub output_dir: Seq<char>,
    pub generate_mod_file: bool,
    pub show_statistics: bool,
}

/// The configuration the processor runs under.
#[derive(Debug, Clone)]
pub struct Config {
    pub schema_dir: String,
    pub output_dir: String,
    pub generate_mod_file: bool,
    pub show_statistics: bool,
}

impl View for Config {
    type V = ConfigV;

    open spec fn view(&self) -> ConfigV {
        ConfigV {
            schema_dir: self.schema_dir@,
            output_dir: self.output_dir@,
            generate_mod_file: self.generate_mod_file,
            show_statistics: self.show_statistics,
        }
    }
}

/// The built-in default configuration.
pub open spec fn spec_default_config() -> ConfigV {
    ConfigV {
        schema_dir: "../tests/schema_validation/schemas/v2.1"@,
        output_dir: "../v2_1/messages"@,
        generate_mod_file: true,
        show_statistics: true,
    }
}

/// The outcome of reading the command line: a usable configuration, a
/// request for the usage text, or one of the two argument faults.
#[derive(Debug)]
pub enum ParsedArgs {
    Ready(Config),
    Help,
    UnknownArgument(String),
    MissingValue(String),
}

/// The abstract value of a [`ParsedArgs`].
pub ghost enum ParsedArgsV {
    Ready(ConfigV),
    Help,
    UnknownArgument(Seq<char>),
    MissingValue(Seq<char>),
}

impl View for ParsedArgs {
    type V = ParsedArgsV;

    open spec fn view(&self) -> ParsedArgsV {
        match self {
            ParsedArgs::Ready(c) => ParsedArgsV::Ready(c@),
            ParsedArgs::Help => ParsedArgsV::Help,
            ParsedArgs::UnknownArgument(s) => ParsedArgsV::UnknownArgument(s@),
            ParsedArgs::MissingValue(s) => ParsedArgsV::MissingValue(s@),
        }
    }
}

/// How the argument list reads from position `i` onward, over a
/// configuration built so far: directory switches take a value, the feature
/// switches flip their flag, the help switches end the scan, and anything
/// else is an unknown argument.
pub open spec fn spec_parse_args(args: Seq<Seq<char>>, i: int, c: ConfigV) -> ParsedArgsV
    decreases args.len() - i,
{
    if i < 0 || i >= args.len() {
        ParsedArgsV::Ready(c)
    } else if args[i] == "--schema-dir"@ {
        if i + 1 < args.len() {
            spec_parse_args(args, i + 2, ConfigV { schema_dir: args[i + 1], ..c })
        } else {
            ParsedArgsV::MissingValue("--schema-dir"@)
        }
    } else if args[i] == "--output-dir"@ {
        if i + 1 < args.len() {
            spec_parse_args(args, i + 2, ConfigV { output_dir: args[i + 1], ..c })
        } else {
            ParsedArgsV::MissingValue("--output-dir"@)
        }
    } else if args[i] == "--no-mod-file"@ {
        spec_parse_args(args, i + 1, ConfigV { generate_mod_file: false, ..c })
    } else if args[i] == "--mod-file"@ {
        spec_parse_args(args, i + 1, ConfigV { generate_mod_file: true, ..c })
    } else if args[i] == "--no-stats"@ {
        spec_parse_args(args, i + 1, ConfigV { show_statistics: false, ..c })
    } else if args[i] == "--help"@ || args[i] == "-h"@ {
        ParsedArgsV::Help
    } else {
        ParsedArgsV::UnknownArgument(args[i])
    }
}

impl Config {
    /// The default configuration.
    pub fn default() -> (r: Config)
        ensures
            r@ == spec_default_config(),
    {
        Config {
            schema_dir: ("../tests/schema_validation/schemas/v2.1").to_owned(),
            output_dir: ("../v2_1/messages").to_owned(),
            generate_mod_file: true,
            show_statistics: true,
        }
    }

    /// Reads a configuration from a full argument list, the program name
    /// standing first.
    #[verifier::loop_isolation(false)]
    pub fn from_args(args: &Vec<String>) -> (r: ParsedArgs)
        ensures
            r@ == spec_parse_args(args.deep_view(), 1, spec_default_config()),
    {
        let ghost av = args.deep_view();
        let mut config = Config::default();
        let mut i: usize = 1;
        while i < args.len()
            invariant
                1 <= i,
                spec_parse_args(av, i as int, config@) == spec_parse_args(
                    av,
                    1,
                    spec_default_config(),
                ),
            decreases args.len() - i,
        {
            let arg = args[i].as_str();
            if str_eq(arg, "--schema-dir") {
                if i + 1 < args.len() {
                    config.schema_dir = args[i + 1].clone();
                    i = i + 2;
                } else {
                    return ParsedArgs::MissingValue(("--schema-dir").to_owned());
                }
            } else if str_eq(arg, "--output-dir") {
                if i + 1 < args.len() {
                    config.output_dir = args[i + 1].clone();
                    i = i + 2;
                } else {
                    return ParsedArgs::MissingValue(("--output-dir").to_owned());
                }
            } else if str_eq(arg, "--no-mod-file") {
                config.generate_mod_file = false;
                i = i + 1;
            } else if str_eq(arg, "--mod-file") {
                config.generate_mod_file = true;
                i = i + 1;
            } else if str_eq(arg, "--no-stats") {
                config.show_statistics = false;
                i = i + 1;
            } else if str_eq(arg, "--help") || str_eq(arg, "-h") {
                return ParsedArgs::Help;
            } else {
                return ParsedArgs::UnknownArgument(args[i].clone());
            }
        }
        ParsedArgs::Ready(config)
    }

    /// The full error message for a missing schema directory.
    pub open spec fn spec_missing_dir_msg(dir: Seq<char>) -> Seq<char> {
        "Schema directory does not exist: "@ + dir
    }

    /// The validation verdict once the schema directory's existence is
    /// known: fine when it exists, else the exact complaint.
    pub fn validate_given(&self, schema_dir_exists: bool) -> (r: Result<(), String>)
        ensures
            r is Ok <==> schema_dir_exists,
            r is Err ==> r.unwrap_err()@ == Config::spec_missing_dir_msg(self@.schema_dir),
    {
        if schema_dir_exists {
            Ok(())
        } else {
            let mut msg = ("Schema directory does not exist: ").to_owned();
            msg.append(self.schema_dir.as_str());
            Err(msg)
        }
    }

    /// Checks that the schema directory exists on disk.
    pub fn validate(&self) -> (r: Result<(), String>)
        ensures
            r is Err ==> r.unwrap_err()@ == Config::spec_missing_dir_msg(self@.schema_dir),
    {
        let exists = path_exists(self.schema_dir.as_str());
        self.validate_given(exists)
    }
}

/// Relies on std::path::Path::exists: whether the path points at an existing
/// entity on disk. Nothing is assumed of the answer.
#[verifier::external_body]
fn path_exists(p: &str) -> bool {
    std::path::Path::new(p).exists()
}

} // verus!
