//! The program's arguments: `-h` or `--help`, `-c` or `--colors`, and `-p` or
//! `--path` with the file to edit after it.

use vstd::prelude::*;
use vstd::string::*;
use crate::fuzzy::{chars_of, texts_of};

verus! {

/// An option of the program.
#[derive(Clone, Copy, Debug, PartialEq, Eq, Structural)]
pub enum Flag {
    Help,
    Colors,
    Path,
}

/// What the program was asked to run on.
#[derive(Debug)]
pub struct CliArgs {
    /// Whether a line feed is shown styled.
    pub colors: bool,
    /// Path of the file to edit.
    pub file: String,
}

/// What the arguments ask for.
#[derive(Debug)]
pub enum Startup {
    /// Print the help text and leave.
    Help,
    /// The argument at this place is no option: suggest one and leave.
    Unknown { place: usize },
    /// No file was named.
    NoFile,
    /// Edit the file.
    Run { args: CliArgs },
}

/// The mathematical content of a `Startup`.
pub enum StartupView {
    Help,
    Unknown { place: int },
    NoFile,
    Run { colors: bool, file: Seq<char> },
}

impl View for Startup {
    type V = StartupView;

    open spec fn view(&self) -> StartupView {
        match self {
            Startup::Help => StartupView::Help,
            Startup::Unknown { place } => StartupView::Unknown { place: *place as int },
            Startup::NoFile => StartupView::NoFile,
            Startup::Run { args } => StartupView::Run { colors: args.colors, file: args.file@ },
        }
    }
}

/// The option that an argument names, in its short or its long form.
pub open spec fn flag_of(arg: Seq<char>) -> Option<Flag> {
    if arg == seq!['-', 'h'] || arg == seq!['-', '-', 'h', 'e', 'l', 'p'] {
        Some(Flag::Help)
    } else if arg == seq!['-', 'c'] || arg == seq!['-', '-', 'c', 'o', 'l', 'o', 'r', 's'] {
        Some(Flag::Colors)
    } else if arg == seq!['-', 'p'] || arg == seq!['-', '-', 'p', 'a', 't', 'h'] {
        Some(Flag::Path)
    } else {
        None
    }
}

/// What the arguments from place `k` on ask for, with what the ones before
/// have set. The first request for help and the first argument that is no
/// option end the reading. A later path takes the place of an earlier one;
/// the argument after `-p` is the path whatever it looks like, and where there
/// is none, or the path is empty, no file was named.
pub open spec fn read_from(args: Seq<Seq<char>>, k: int, colors: bool, file: Seq<char>) -> StartupView
    decreases args.len() - k,
{
    if k >= args.len() {
        if file.len() == 0 {
            StartupView::NoFile
        } else {
            StartupView::Run { colors, file }
        }
    } else {
        match flag_of(args[k]) {
            None => StartupView::Unknown { place: k },
            Some(Flag::Help) => StartupView::Help,
            Some(Flag::Colors) => read_from(args, k + 1, true, file),
            Some(Flag::Path) => if k + 1 < args.len() {
                read_from(args, k + 2, colors, args[k + 1])
            } else {
                StartupView::NoFile
            },
        }
    }
}

/// What the program's arguments ask for; the first is the program's name.
pub open spec fn startup_spec(args: Seq<Seq<char>>) -> StartupView {
    read_from(args, 1, false, Seq::empty())
}

/// Whether two texts are the same.
pub fn same_text(a: &[char], b: &[char]) -> (r: bool)
    ensures
        r == (a@ == b@),
{
    if a.len() != b.len() {
        return false;
    }
    let mut k: usize = 0;
    while k < a.len()
        invariant
            k <= a.len(),
            a.len() == b.len(),
            forall|q: int| 0 <= q < k ==> a@[q] == b@[q],
        decreases a.len() - k,
    {
        if a[k] != b[k] {
            return false;
        }
        k += 1;
    }
    proof {
        assert(a@ =~= b@);
    }
    true
}

/// The option that an argument names.
pub fn classify(arg: &[char]) -> (flag: Option<Flag>)
    ensures
        flag == flag_of(arg@),
{
    let short_help: Vec<char> = vec!['-', 'h'];
    let long_help: Vec<char> = vec!['-', '-', 'h', 'e', 'l', 'p'];
    let short_colors: Vec<char> = vec!['-', 'c'];
    let long_colors: Vec<char> = vec!['-', '-', 'c', 'o', 'l', 'o', 'r', 's'];
    let short_path: Vec<char> = vec!['-', 'p'];
    let long_path: Vec<char> = vec!['-', '-', 'p', 'a', 't', 'h'];
    proof {
        assert(short_help@ =~= seq!['-', 'h']);
        assert(long_help@ =~= seq!['-', '-', 'h', 'e', 'l', 'p']);
        assert(short_colors@ =~= seq!['-', 'c']);
        assert(long_colors@ =~= seq!['-', '-', 'c', 'o', 'l', 'o', 'r', 's']);
        assert(short_path@ =~= seq!['-', 'p']);
        assert(long_path@ =~= seq!['-', '-', 'p', 'a', 't', 'h']);
    }
    if same_text(arg, short_help.as_slice()) || same_text(arg, long_help.as_slice()) {
        Some(Flag::Help)
    } else if same_text(arg, short_colors.as_slice()) || same_text(arg, long_colors.as_slice()) {
        Some(Flag::Colors)
    } else if same_text(arg, short_path.as_slice()) || same_text(arg, long_path.as_slice()) {
        Some(Flag::Path)
    } else {
        None
    }
}

/// The value of the option at place `i` among the arguments that follow the
/// program's name: the argument after it.
pub fn get_file_arg(args: &[String], i: usize) -> (path: String)
    requires
        i + 2 < args@.len(),
    ensures
        path@ == args@[i + 2]@,
{
    let count: usize = args.len();
    assert(i + 2 < count);
    args[i + 2].clone()
}

/// Reads the program's arguments.
pub fn get_args(args: &[String]) -> (r: Startup)
    ensures
        r@ == startup_spec(texts_of(args@)),
{
    let ghost texts = texts_of(args@);
    let mut colors: bool = false;
    let mut file: String = String::new();
    let mut k: usize = 1;
    while k < args.len()
        invariant
            1 <= k,
            texts == texts_of(args@),
            startup_spec(texts) == read_from(texts, k as int, colors, file@),
        decreases args@.len() - k,
    {
        let arg = chars_of(args[k].as_str());
        proof {
            assert(texts[k as int] == arg@);
        }
        match classify(arg.as_slice()) {
            None => {
                return Startup::Unknown { place: k };
            },
            Some(Flag::Help) => {
                return Startup::Help;
            },
            Some(Flag::Colors) => {
                colors = true;
                k += 1;
            },
            Some(Flag::Path) => {
                if args.len() - k < 2 {
                    return Startup::NoFile;
                }
                file = get_file_arg(args, k - 1);
                proof {
                    assert(texts[k + 1] == file@);
                }
                k += 2;
            },
        }
    }
    if file.as_str().unicode_len() == 0 {
        Startup::NoFile
    } else {
        Startup::Run { args: CliArgs { colors, file } }
    }
}

} // verus!
