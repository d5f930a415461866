//! What the program is asked to do, from its first argument.

use crate::text::same_text;
use vstd::prelude::*;

verus! {

/// What the program does.
#[derive(Clone, Copy, Debug, PartialEq, Eq)]
pub enum Mode {
    /// Print the report; with `show_all`, virtual and empty filesystems
    /// too.
    Report { show_all: bool },
    /// Print the version.
    Version,
    /// Print the version and how the program is used.
    Usage,
}

/// The mode that the first argument asks for: none asks for the default
/// report, `-a` or `--all` for the full one, `-V` or `--version` for the
/// version, and anything else for the usage text.
pub open spec fn mode_of(arg: Option<Seq<char>>) -> Mode {
    match arg {
        None => Mode::Report { show_all: false },
        Some(a) => if a == "-a"@ || a == "--all"@ {
            Mode::Report { show_all: true }
        } else if a == "-V"@ || a == "--version"@ {
            Mode::Version
        } else {
            Mode::Usage
        },
    }
}

/// The view of an optional argument.
pub open spec fn arg_view(arg: Option<&str>) -> Option<Seq<char>> {
    match arg {
        Some(a) => Some(a@),
        None => None,
    }
}

/// The mode that the program's first argument asks for.
pub fn mode(arg: Option<&str>) -> (m: Mode)
    ensures
        m == mode_of(arg_view(arg)),
{
    match arg {
        None => Mode::Report { show_all: false },
        Some(a) => {
            if same_text(a, "-a") || same_text(a, "--all") {
                Mode::Report { show_all: true }
            } else if same_text(a, "-V") || same_text(a, "--version") {
                Mode::Version
            } else {
                Mode::Usage
            }
        },
    }
}

} // verus!
