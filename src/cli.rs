//! What the command line asks for, and where the configuration file lives.
use vstd::prelude::*;

use crate::error::{Error, ErrorView};
use crate::text::{chars_of, same_text};

verus! {

broadcast use vstd::string::group_string_axioms;

/// The file to open, as named on the command line.
#[derive(Debug)]
pub struct Cli {
    file: String,
}

/// What a command line asks for.
#[derive(Debug)]
pub enum Invocation {
    /// `-h` or `--help`: print the help text.
    Help,
    /// `-v` or `--version`: print the name and version.
    Version,
    /// Anything else that is not one file: print how to call the program.
    Usage,
    /// Open one file.
    Open(Cli),
}

/// `-h` or `--help`.
pub open spec fn is_help_flag(a: Seq<char>) -> bool {
    a == seq!['-', 'h'] || a == seq!['-', '-', 'h', 'e', 'l', 'p']
}

/// `-v` or `--version`.
pub open spec fn is_version_flag(a: Seq<char>) -> bool {
    a == seq!['-', 'v'] || a == seq!['-', '-', 'v', 'e', 'r', 's', 'i', 'o', 'n']
}

/// The path of the configuration file below the home directory.
pub const CONFIG_FILE: &'static str = ".config/uf.conf";

/// The configuration file in the home directory `home`, joined as a path:
/// with a `/` between them unless `home` is empty or already ends in one.
pub open spec fn config_file_path(home: Seq<char>) -> Seq<char> {
    if home.len() == 0 || home.last() == '/' {
        home + CONFIG_FILE@
    } else {
        home + seq!['/'] + CONFIG_FILE@
    }
}

impl View for Cli {
    type V = Seq<char>;

    closed spec fn view(&self) -> Seq<char> {
        self.file@
    }
}

impl Cli {
    /// Reads the command line `args`, whose first item is the program's
    /// own name: a help or version flag as the first argument wins, else
    /// exactly one argument names the file to open.
    pub fn parse(args: &Vec<String>) -> (r: Invocation)
        ensures
            match r {
                Invocation::Help => args.len() >= 2 && is_help_flag(args@[1]@),
                Invocation::Version => args.len() >= 2 && !is_help_flag(args@[1]@)
                    && is_version_flag(args@[1]@),
                Invocation::Usage => args.len() < 2 || (!is_help_flag(args@[1]@)
                    && !is_version_flag(args@[1]@) && args.len() != 2),
                Invocation::Open(c) => args.len() == 2 && !is_help_flag(args@[1]@)
                    && !is_version_flag(args@[1]@) && c@ == args@[1]@,
            },
    {
        if args.len() < 2 {
            return Invocation::Usage;
        }
        let a = args[1].as_str();
        proof {
            reveal_strlit("-h");
            reveal_strlit("--help");
            reveal_strlit("-v");
            reveal_strlit("--version");
            assert("-h"@ =~= seq!['-', 'h']);
            assert("--help"@ =~= seq!['-', '-', 'h', 'e', 'l', 'p']);
            assert("-v"@ =~= seq!['-', 'v']);
            assert("--version"@ =~= seq!['-', '-', 'v', 'e', 'r', 's', 'i', 'o', 'n']);
        }
        if same_text(a, "-h") || same_text(a, "--help") {
            Invocation::Help
        } else if same_text(a, "-v") || same_text(a, "--version") {
            Invocation::Version
        } else if args.len() != 2 {
            Invocation::Usage
        } else {
            Invocation::Open(Cli { file: a.to_owned() })
        }
    }

    /// The file to open.
    pub fn file(&self) -> (r: &str)
        ensures
            r@ == self@,
    {
        self.file.as_str()
    }
}

/// The path of the configuration file, given the home directory (`None`
/// where it is not known).
pub fn config_path(home: Option<&str>) -> (r: Result<String, Error>)
    ensures
        match home {
            Some(h) => r matches Ok(p) && p@ == config_file_path(h@),
            None => r matches Err(e) && e@ == ErrorView::NoHomeDirectory,
        },
{
    match home {
        None => Err(Error::NoHomeDirectory),
        Some(h) => {
            let v = chars_of(h);
            let mut p = h.to_owned();
            if v.len() > 0 && v[v.len() - 1] != '/' {
                p.append("/");
                proof {
                    reveal_strlit("/");
                    assert("/"@ =~= seq!['/']);
                }
            }
            p.append(CONFIG_FILE);
            Ok(p)
        },
    }
}

} // verus!
