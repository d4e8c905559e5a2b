//! The command line of the frontend: a manifest to open and a theme.

use vstd::prelude::*;
use vstd::string::*;

use crate::text::{cat2, cat3, chars_of, lowercase, lowercase_text, quoted, quoted_text, same_text};

verus! {

/// The visual theme.
#[derive(Debug, Clone, Copy, PartialEq, Eq, Structural)]
pub enum ThemeKind {
    Default,
    Pdp,
}

/// The theme of a name, whatever its case.
pub open spec fn theme_named(s: Seq<char>) -> Option<ThemeKind> {
    let l = lowercase(s);
    if l == "default"@ || l == "blue"@ {
        Some(ThemeKind::Default)
    } else if l == "pdp"@ || l == "pdp11"@ {
        Some(ThemeKind::Pdp)
    } else {
        None
    }
}

pub open spec fn unknown_theme(s: Seq<char>) -> Seq<char> {
    "unknown theme "@ + quoted(s) + ": expected default | pdp"@
}

impl Default for ThemeKind {
    fn default() -> (r: ThemeKind)
        ensures
            r == ThemeKind::Default,
    {
        ThemeKind::Default
    }
}

impl ThemeKind {
    /// Read a theme's name.
    pub fn parse(s: &str) -> (r: Result<ThemeKind, String>)
        ensures
            match r {
                Ok(k) => theme_named(s@) == Some(k),
                Err(e) => theme_named(s@) is None && e@ == unknown_theme(s@),
            },
    {
        let l = lowercase_text(s);
        if same_text(&l, "default") || same_text(&l, "blue") {
            Ok(ThemeKind::Default)
        } else if same_text(&l, "pdp") || same_text(&l, "pdp11") {
            Ok(ThemeKind::Pdp)
        } else {
            let q = quoted_text(s);
            Err(cat3("unknown theme ", &q, ": expected default | pdp"))
        }
    }
}

/// What the command line asks for.
#[derive(Debug)]
pub enum Launch {
    /// Open the window. The manifest is the argument at that place.
    Open { manifest: Option<usize>, theme: ThemeKind },
    Help,
    Version,
    /// The command line is wrong, and why; `usage` to show how it is used.
    Refused { message: String, usage: bool },
}

pub enum LaunchView {
    Open { manifest: Option<int>, theme: ThemeKind },
    Help,
    Version,
    Refused { message: Seq<char>, usage: bool },
}

impl View for Launch {
    type V = LaunchView;

    open spec fn view(&self) -> LaunchView {
        match self {
            Launch::Open { manifest, theme } => LaunchView::Open {
                manifest: match manifest {
                    Some(i) => Some(*i as int),
                    None => None,
                },
                theme: *theme,
            },
            Launch::Help => LaunchView::Help,
            Launch::Version => LaunchView::Version,
            Launch::Refused { message, usage } => LaunchView::Refused {
                message: message@,
                usage: *usage,
            },
        }
    }
}

/// What one argument is. An argument that is no text can only be a path.
pub enum Word {
    Help,
    Version,
    Manifest,
    Theme,
    Unknown,
    Path,
}

pub open spec fn word_of(arg: Option<Seq<char>>) -> Word {
    match arg {
        None => Word::Path,
        Some(s) => if s == "-h"@ || s == "--help"@ {
            Word::Help
        } else if s == "-V"@ || s == "--version"@ {
            Word::Version
        } else if s == "-m"@ || s == "--manifest"@ {
            Word::Manifest
        } else if s == "--theme"@ {
            Word::Theme
        } else if s.len() > 1 && s[0] == '-' {
            Word::Unknown
        } else {
            Word::Path
        },
    }
}

pub open spec fn arg_text(a: Option<String>) -> Option<Seq<char>> {
    crate::text::opt_text(a)
}

/// A theme argument that is no text reads as an empty name.
pub open spec fn theme_arg(a: Option<String>) -> Seq<char> {
    match a {
        Some(s) => s@,
        None => Seq::empty(),
    }
}

/// The launch that the arguments from `i` on ask for, with what was read so far.
pub open spec fn launch_from(
    args: Seq<Option<String>>,
    i: int,
    manifest: Option<int>,
    theme: ThemeKind,
) -> LaunchView
    decreases args.len() - i,
{
    let twice = LaunchView::Refused {
        message: "more than one layout manifest given"@,
        usage: true,
    };
    if i < 0 || i >= args.len() {
        LaunchView::Open { manifest, theme }
    } else {
        match word_of(arg_text(args[i])) {
            Word::Help => LaunchView::Help,
            Word::Version => LaunchView::Version,
            Word::Manifest => if i + 1 >= args.len() {
                LaunchView::Refused {
                    message: "--manifest needs a file argument"@,
                    usage: false,
                }
            } else if manifest is Some {
                twice
            } else {
                launch_from(args, i + 2, Some(i + 1), theme)
            },
            Word::Theme => if i + 1 >= args.len() {
                LaunchView::Refused { message: "--theme needs a name argument"@, usage: false }
            } else {
                match theme_named(theme_arg(args[i + 1])) {
                    Some(k) => launch_from(args, i + 2, manifest, k),
                    None => LaunchView::Refused {
                        message: unknown_theme(theme_arg(args[i + 1])),
                        usage: true,
                    },
                }
            },
            Word::Unknown => LaunchView::Refused {
                message: "unknown option "@ + quoted(arg_text(args[i])->0),
                usage: true,
            },
            Word::Path => if manifest is Some {
                twice
            } else {
                launch_from(args, i + 1, Some(i), theme)
            },
        }
    }
}

fn word_here(arg: &Option<String>) -> (r: Word)
    ensures
        r == word_of(arg_text(*arg)),
{
    match arg {
        None => Word::Path,
        Some(s) => {
            if same_text(s, "-h") || same_text(s, "--help") {
                Word::Help
            } else if same_text(s, "-V") || same_text(s, "--version") {
                Word::Version
            } else if same_text(s, "-m") || same_text(s, "--manifest") {
                Word::Manifest
            } else if same_text(s, "--theme") {
                Word::Theme
            } else {
                let cs = chars_of(s);
                if cs.len() > 1 && cs[0] == '-' {
                    Word::Unknown
                } else {
                    Word::Path
                }
            }
        },
    }
}

fn named_twice() -> (r: Launch)
    ensures
        r@ == (LaunchView::Refused {
            message: "more than one layout manifest given"@,
            usage: true,
        }),
{
    Launch::Refused { message: "more than one layout manifest given".to_owned(), usage: true }
}

/// Read the arguments behind the program's name; one that is no text is given as
/// nothing.
pub fn parse_args(args: &Vec<Option<String>>) -> (r: Launch)
    ensures
        r@ == launch_from(args@, 0, None, ThemeKind::Default),
{
    let ghost total = launch_from(args@, 0, None, ThemeKind::Default);
    let mut manifest: Option<usize> = None;
    let mut theme = ThemeKind::Default;
    let mut i: usize = 0;
    while i < args.len()
        invariant
            i <= args@.len(),
            total == launch_from(args@, 0, None, ThemeKind::Default),
            total == launch_from(
                args@,
                i as int,
                match manifest {
                    Some(m) => Some(m as int),
                    None => None,
                },
                theme,
            ),
        decreases args@.len() - i,
    {
        match word_here(&args[i]) {
            Word::Help => {
                return Launch::Help;
            },
            Word::Version => {
                return Launch::Version;
            },
            Word::Manifest => {
                if i + 1 >= args.len() {
                    return Launch::Refused {
                        message: "--manifest needs a file argument".to_owned(),
                        usage: false,
                    };
                }
                if manifest.is_some() {
                    return named_twice();
                }
                manifest = Some(i + 1);
                i = i + 2;
            },
            Word::Theme => {
                if i + 1 >= args.len() {
                    return Launch::Refused {
                        message: "--theme needs a name argument".to_owned(),
                        usage: false,
                    };
                }
                let parsed = match &args[i + 1] {
                    Some(s) => ThemeKind::parse(s),
                    None => {
                        let nothing = String::new();
                        assert(nothing@ =~= Seq::<char>::empty());
                        ThemeKind::parse(&nothing)
                    },
                };
                match parsed {
                    Ok(k) => {
                        theme = k;
                    },
                    Err(message) => {
                        return Launch::Refused { message, usage: true };
                    },
                }
                i = i + 2;
            },
            Word::Unknown => {
                if let Some(s) = &args[i] {
                    let q = quoted_text(s);
                    return Launch::Refused {
                        message: cat2("unknown option ", &q),
                        usage: true,
                    };
                }
                i = i + 1;
            },
            Word::Path => {
                if manifest.is_some() {
                    return named_twice();
                }
                manifest = Some(i);
                i = i + 1;
            },
        }
    }
    Launch::Open { manifest, theme }
}

} // verus!
