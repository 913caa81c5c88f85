//! Command-line argument handling, help text, and terminal colors.

use vstd::prelude::*;

use crate::chars::str_eq;
use crate::errors::CliErrV;
use crate::errors::CliError;

verus! {

/// The mathematical content of a [`Settings`].
pub struct SettingsV {
    pub input: Seq<char>,
    pub output: Seq<char>,
    pub output_config: Seq<char>,
    pub version: bool,
    pub help: bool,
}

/// The code representation of the command-line arguments.
#[derive(Debug, PartialEq)]
pub struct Settings {
    /// The path of the input file.
    pub input: String,
    /// The path of the output file.
    pub output: String,
    /// The path of the configuration file.
    pub output_config: String,
    /// Whether to show the version.
    pub version: bool,
    /// Whether to show the help.
    pub help: bool,
}

impl View for Settings {
    type V = SettingsV;

    open spec fn view(&self) -> SettingsV {
        SettingsV {
            input: self.input@,
            output: self.output@,
            output_config: self.output_config@,
            version: self.version,
            help: self.help,
        }
    }
}

/// Settings with everything unset.
pub open spec fn settings_init() -> SettingsV {
    SettingsV {
        input: Seq::empty(),
        output: Seq::empty(),
        output_config: Seq::empty(),
        version: false,
        help: false,
    }
}

/// What the arguments from position `i` onwards make of `cur`: a flag that
/// takes a value consumes the next argument and is a fault when there is
/// none; version and help flags set their fields; anything else is
/// ignored.
pub open spec fn spec_settings_args(args: Seq<Seq<char>>, i: int, cur: SettingsV) -> Result<
    SettingsV,
    CliErrV,
>
    decreases args.len() - i,
{
    if i < 0 || i >= args.len() {
        Ok(cur)
    } else {
        let a = args[i];
        if a == "-i"@ || a == "--input"@ {
            if i + 1 < args.len() {
                spec_settings_args(args, i + 2, SettingsV { input: args[i + 1], ..cur })
            } else {
                Err(CliErrV::MissingValue(a))
            }
        } else if a == "-o"@ || a == "--output"@ {
            if i + 1 < args.len() {
                spec_settings_args(args, i + 2, SettingsV { output: args[i + 1], ..cur })
            } else {
                Err(CliErrV::MissingValue(a))
            }
        } else if a == "-c"@ || a == "--config"@ {
            if i + 1 < args.len() {
                spec_settings_args(args, i + 2, SettingsV { output_config: args[i + 1], ..cur })
            } else {
                Err(CliErrV::MissingValue(a))
            }
        } else if a == "-v"@ || a == "-V"@ || a == "--version"@ {
            spec_settings_args(args, i + 1, SettingsV { version: true, ..cur })
        } else if a == "-h"@ || a == "--help"@ {
            spec_settings_args(args, i + 1, SettingsV { help: true, ..cur })
        } else {
            spec_settings_args(args, i + 1, cur)
        }
    }
}

/// What a whole argument list means: the parsed settings, with the input,
/// output and configuration paths demanded unless the version or help flag
/// is set.
pub open spec fn spec_settings(args: Seq<Seq<char>>) -> Result<SettingsV, CliErrV> {
    match spec_settings_args(args, 0, settings_init()) {
        Err(e) => Err(e),
        Ok(s) => if s.input.len() == 0 && !s.version && !s.help {
            Err(CliErrV::MissingInput)
        } else if s.output.len() == 0 && !s.version && !s.help {
            Err(CliErrV::MissingOutput)
        } else if s.output_config.len() == 0 && !s.version && !s.help {
            Err(CliErrV::MissingConfig)
        } else {
            Ok(s)
        },
    }
}

impl Settings {
    /// Parses the command-line arguments, the program name already
    /// skipped.
    pub fn new(args: Vec<String>) -> (r: Result<Settings, CliError>)
        ensures
            match r {
                Ok(s) => spec_settings(args.deep_view()) == Ok::<_, CliErrV>(s@),
                Err(e) => spec_settings(args.deep_view()) == Err::<SettingsV, _>(e@),
            },
    {
        let ghost all = args.deep_view();
        let mut settings = Settings {
            input: String::new(),
            output: String::new(),
            output_config: String::new(),
            version: false,
            help: false,
        };
        let n = args.len();
        let mut i: usize = 0;
        proof {
            assert(settings@ == settings_init());
        }
        while i < n
            invariant
                i <= n,
                n == args@.len(),
                all == args.deep_view(),
                spec_settings_args(all, 0, settings_init()) == spec_settings_args(
                    all,
                    i as int,
                    settings@,
                ),
            decreases n - i,
        {
            proof {
                assert(all[i as int] == args@[i as int]@);
                if i + 1 < n {
                    assert(all[i + 1] == args@[i + 1]@);
                }
            }
            let arg = &args[i];
            if str_eq(arg.as_str(), "-i") || str_eq(arg.as_str(), "--input") {
                if i + 1 < n {
                    settings.input = args[i + 1].clone();
                    i = i + 2;
                } else {
                    return Err(CliError::MissingValue(arg.clone()));
                }
            } else if str_eq(arg.as_str(), "-o") || str_eq(arg.as_str(), "--output") {
                if i + 1 < n {
                    settings.output = args[i + 1].clone();
                    i = i + 2;
                } else {
                    return Err(CliError::MissingValue(arg.clone()));
                }
            } else if str_eq(arg.as_str(), "-c") || str_eq(arg.as_str(), "--config") {
                if i + 1 < n {
                    settings.output_config = args[i + 1].clone();
                    i = i + 2;
                } else {
                    return Err(CliError::MissingValue(arg.clone()));
                }
            } else if str_eq(arg.as_str(), "-v") || str_eq(arg.as_str(), "-V") || str_eq(
                arg.as_str(),
                "--version",
            ) {
                settings.version = true;
                i = i + 1;
            } else if str_eq(arg.as_str(), "-h") || str_eq(arg.as_str(), "--help") {
                settings.help = true;
                i = i + 1;
            } else {
                i = i + 1;
            }
        }
        if settings.input.as_str().unicode_len() == 0 && !settings.version && !settings.help {
            return Err(CliError::MissingInput);
        }
        if settings.output.as_str().unicode_len() == 0 && !settings.version && !settings.help {
            return Err(CliError::MissingOutput);
        }
        if settings.output_config.as_str().unicode_len() == 0 && !settings.version
            && !settings.help {
            return Err(CliError::MissingConfig);
        }
        Ok(settings)
    }
}

/// The usage text shown in the help and in argument errors.
pub open spec fn spec_usage() -> Seq<char> {
    "\nUsage: csv_converter [OPTIONS]\n\nOptions:\n  -i <file>, --input <file>\n        Specify the input file to process.\n  -o <file>, --output <file>\n        Specify the output file to write results to.\n  -c <file>, --config <file>\n        Specify the config file to determine what the output format is.\n  -v, -V, --version\n        Display the program's version information.\n  -h, --help\n        Display this help message."@
}

/// The usage text shown in the help and in argument errors.
pub fn usage() -> (r: String)
    ensures
        r@ == spec_usage(),
{
    String::from_str(
        "\nUsage: csv_converter [OPTIONS]\n\nOptions:\n  -i <file>, --input <file>\n        Specify the input file to process.\n  -o <file>, --output <file>\n        Specify the output file to write results to.\n  -c <file>, --config <file>\n        Specify the config file to determine what the output format is.\n  -v, -V, --version\n        Display the program's version information.\n  -h, --help\n        Display this help message.",
    )
}

/// The help text: a colored banner, a one-line description, and the usage
/// text.
pub open spec fn spec_help() -> Seq<char> {
    "\n"@ + spec_color_code(CliColor::YellowBright) + " \u{2588}\u{2580}\u{2580} \u{2588}\u{2580}\u{2580} \u{2588} \u{2588}   \u{2588}\u{2580}\u{2580} \u{2588}\u{2580}\u{2588} \u{2588}\u{2584} \u{2588} \u{2588} \u{2588} \u{2588}\u{2580}\u{2580} \u{2588}\u{2580}\u{2588} \u{2580}\u{2588}\u{2580} \u{2588}\u{2580}\u{2580} \u{2588}\u{2580}\u{2588}"@ + spec_color_code(CliColor::Reset)
        + "\n"@ + spec_color_code(CliColor::MagentaBright) + " \u{2588}\u{2584}\u{2584} \u{2584}\u{2584}\u{2588} \u{2580}\u{2584}\u{2580}   \u{2588}\u{2584}\u{2584} \u{2588}\u{2584}\u{2588} \u{2588} \u{2580}\u{2588} \u{2580}\u{2584}\u{2580} \u{2588}\u{2588}\u{2584} \u{2588}\u{2580}\u{2584}  \u{2588}  \u{2588}\u{2588}\u{2584} \u{2588}\u{2580}\u{2584}"@ + spec_color_code(
        CliColor::Reset,
    ) + "\n A tool to convert a CSV file into a new format\n"@ + spec_usage()
}

/// The help text: a colored banner, a one-line description, and the usage
/// text.
pub fn help() -> (r: String)
    ensures
        r@ == spec_help(),
{
    let mut s = String::from_str("\n");
    let yb = CliColor::YellowBright.code();
    s.append(yb.as_str());
    s.append(" \u{2588}\u{2580}\u{2580} \u{2588}\u{2580}\u{2580} \u{2588} \u{2588}   \u{2588}\u{2580}\u{2580} \u{2588}\u{2580}\u{2588} \u{2588}\u{2584} \u{2588} \u{2588} \u{2588} \u{2588}\u{2580}\u{2580} \u{2588}\u{2580}\u{2588} \u{2580}\u{2588}\u{2580} \u{2588}\u{2580}\u{2580} \u{2588}\u{2580}\u{2588}");
    let rs = CliColor::Reset.code();
    s.append(rs.as_str());
    s.append("\n");
    let mb = CliColor::MagentaBright.code();
    s.append(mb.as_str());
    s.append(" \u{2588}\u{2584}\u{2584} \u{2584}\u{2584}\u{2588} \u{2580}\u{2584}\u{2580}   \u{2588}\u{2584}\u{2584} \u{2588}\u{2584}\u{2588} \u{2588} \u{2580}\u{2588} \u{2580}\u{2584}\u{2580} \u{2588}\u{2588}\u{2584} \u{2588}\u{2580}\u{2584}  \u{2588}  \u{2588}\u{2588}\u{2584} \u{2588}\u{2580}\u{2584}");
    s.append(rs.as_str());
    s.append("\n A tool to convert a CSV file into a new format\n");
    let u = usage();
    s.append(u.as_str());
    s
}

/// Terminal color selectors, each naming one ANSI escape code.
#[derive(Debug, Clone, Copy, PartialEq, Eq, Structural)]
#[allow(dead_code)]
pub enum CliColor {
    System,
    Black,
    Red,
    Green,
    Yellow,
    Blue,
    Magenta,
    Cyan,
    White,
    Gray,
    RedBright,
    GreenBright,
    YellowBright,
    BlueBright,
    MagentaBright,
    CyanBright,
    WhiteBright,
    Reset,
}

/// The ANSI escape code a color selector names.
pub open spec fn spec_color_code(c: CliColor) -> Seq<char> {
    match c {
        CliColor::System => "\u{1b}[39m"@,
        CliColor::Black => "\u{1b}[30m"@,
        CliColor::Red => "\u{1b}[31m"@,
        CliColor::Green => "\u{1b}[32m"@,
        CliColor::Yellow => "\u{1b}[33m"@,
        CliColor::Blue => "\u{1b}[34m"@,
        CliColor::Magenta => "\u{1b}[35m"@,
        CliColor::Cyan => "\u{1b}[36m"@,
        CliColor::White => "\u{1b}[37m"@,
        CliColor::Gray => "\u{1b}[90m"@,
        CliColor::RedBright => "\u{1b}[91m"@,
        CliColor::GreenBright => "\u{1b}[92m"@,
        CliColor::YellowBright => "\u{1b}[93m"@,
        CliColor::BlueBright => "\u{1b}[94m"@,
        CliColor::MagentaBright => "\u{1b}[95m"@,
        CliColor::CyanBright => "\u{1b}[96m"@,
        CliColor::WhiteBright => "\u{1b}[97m"@,
        CliColor::Reset => "\u{1b}[39m"@,
    }
}

impl CliColor {
    /// The ANSI escape code this color names.
    pub fn code(&self) -> (r: String)
        ensures
            r@ == spec_color_code(*self),
    {
        match self {
            CliColor::System => String::from_str("\u{1b}[39m"),
            CliColor::Black => String::from_str("\u{1b}[30m"),
            CliColor::Red => String::from_str("\u{1b}[31m"),
            CliColor::Green => String::from_str("\u{1b}[32m"),
            CliColor::Yellow => String::from_str("\u{1b}[33m"),
            CliColor::Blue => String::from_str("\u{1b}[34m"),
            CliColor::Magenta => String::from_str("\u{1b}[35m"),
            CliColor::Cyan => String::from_str("\u{1b}[36m"),
            CliColor::White => String::from_str("\u{1b}[37m"),
            CliColor::Gray => String::from_str("\u{1b}[90m"),
            CliColor::RedBright => String::from_str("\u{1b}[91m"),
            CliColor::GreenBright => String::from_str("\u{1b}[92m"),
            CliColor::YellowBright => String::from_str("\u{1b}[93m"),
            CliColor::BlueBright => String::from_str("\u{1b}[94m"),
            CliColor::MagentaBright => String::from_str("\u{1b}[95m"),
            CliColor::CyanBright => String::from_str("\u{1b}[96m"),
            CliColor::WhiteBright => String::from_str("\u{1b}[97m"),
            CliColor::Reset => String::from_str("\u{1b}[39m"),
        }
    }
}

} // verus!
