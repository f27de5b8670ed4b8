//! The settings of a run, and how the command line gives them.

use crate::path::{DirPath, PathView};
use crate::text::same_text;
use vstd::prelude::*;

verus! {

/// How a listing is ordered.
#[derive(Debug, Clone, Copy, PartialEq, Eq, Structural)]
pub enum SortMode {
    /// As the file system gave the entries.
    Unsorted,
    /// By size.
    Size,
    /// By name.
    Lex,
}

impl Default for SortMode {
    /// Listings are ordered by size unless told otherwise.
    fn default() -> (mode: SortMode)
        ensures
            mode == SortMode::Size,
    {
        SortMode::Size
    }
}

/// What a run was asked to do.
#[derive(Debug, Clone, PartialEq, Eq)]
pub struct SearchSettings {
    /// The directory to list.
    pub path: DirPath,
    pub sort_mode: SortMode,
    /// Whether the order is turned round.
    pub reverse_sort: bool,
    /// Whether to go on browsing after the first listing.
    pub explore: bool,
}

/// What the settings say, as plain values.
pub struct SettingsView {
    pub path: PathView,
    pub sort_mode: SortMode,
    pub reverse_sort: bool,
    pub explore: bool,
}

impl View for SearchSettings {
    type V = SettingsView;

    open spec fn view(&self) -> SettingsView {
        SettingsView {
            path: self.path@,
            sort_mode: self.sort_mode,
            reverse_sort: self.reverse_sort,
            explore: self.explore,
        }
    }
}

impl SearchSettings {
    /// The settings for listing `path` when no option is given: by size,
    /// largest first, once.
    pub fn new(path: DirPath) -> (settings: SearchSettings)
        ensures
            settings.path == path,
            settings.sort_mode == SortMode::Size,
            !settings.reverse_sort,
            !settings.explore,
    {
        SearchSettings { path, sort_mode: SortMode::default(), reverse_sort: false, explore: false }
    }
}

/// The sort mode that an option asks for, if it is one of the mode options.
pub open spec fn mode_option(option: Seq<char>) -> Option<SortMode> {
    if option == "-n"@ || option == "--none"@ {
        Some(SortMode::Unsorted)
    } else if option == "-s"@ || option == "--size"@ {
        Some(SortMode::Size)
    } else if option == "-l"@ || option == "--lex"@ {
        Some(SortMode::Lex)
    } else {
        None
    }
}

/// Whether an option turns the order round.
pub open spec fn is_reverse_option(option: Seq<char>) -> bool {
    option == "-r"@ || option == "--reverse"@
}

/// Whether an option switches browsing on or off.
pub open spec fn is_explore_option(option: Seq<char>) -> bool {
    option == "-e"@ || option == "--explore"@
}

/// The sort mode after `options`: that of the last mode option among them,
/// or the default where there is none.
pub open spec fn chosen_mode(options: Seq<Seq<char>>) -> SortMode
    decreases options.len(),
{
    if options.len() == 0 {
        SortMode::Size
    } else {
        match mode_option(options.last()) {
            Some(mode) => mode,
            None => chosen_mode(options.drop_last()),
        }
    }
}

/// Whether the order is turned round after `options`: each reverse option
/// flips it, so it is when their number is odd.
pub open spec fn chosen_reverse(options: Seq<Seq<char>>) -> bool
    decreases options.len(),
{
    if options.len() == 0 {
        false
    } else {
        chosen_reverse(options.drop_last()) != is_reverse_option(options.last())
    }
}

/// Whether browsing is on after `options`: each explore option flips it.
pub open spec fn chosen_explore(options: Seq<Seq<char>>) -> bool
    decreases options.len(),
{
    if options.len() == 0 {
        false
    } else {
        chosen_explore(options.drop_last()) != is_explore_option(options.last())
    }
}

/// The options of a command line: what follows the program's name and the
/// path.
pub open spec fn options_of(args: Seq<String>) -> Seq<Seq<char>> {
    Seq::new((args.len() - 2) as nat, |i: int| args[i + 2]@)
}

/// The text that tells how the program is called.
pub const USAGE: &'static str =
    "
Usage:
\tfilesize-utility <path> [options]

Options:
\t-n --none     Use order entries are returned by file system
\t-s --size     Order entries by entry size, larger entries at top (default)
\t-l --lex      Order entries lexicographically
\t-r --reverse  Reverse the ordering of entries
\t-e --explore  Launch the app in explore mode
        ";

/// Reads the settings off a command line. `args[0]` is the program's name
/// and `args[1]` the directory to list; without it there is nothing to do
/// and the answer is `None`. Each further argument is an option; what is not
/// a known option is passed over.
pub fn parse_args(args: &Vec<String>) -> (parsed: Option<SearchSettings>)
    ensures
        parsed.is_some() <==> args@.len() >= 2,
        parsed matches Some(settings) ==> {
            &&& settings.path@.root == args@[1]@
            &&& settings.path@.segments.len() == 0
            &&& settings.sort_mode == chosen_mode(options_of(args@))
            &&& settings.reverse_sort == chosen_reverse(options_of(args@))
            &&& settings.explore == chosen_explore(options_of(args@))
        },
{
    if args.len() < 2 {
        return None;
    }
    let mut settings = SearchSettings::new(DirPath::new(args[1].clone()));
    let ghost options = options_of(args@);
    let mut i: usize = 2;
    while i < args.len()
        invariant
            2 <= i <= args@.len(),
            options == options_of(args@),
            settings.path@.root == args@[1]@,
            settings.path@.segments.len() == 0,
            settings.sort_mode == chosen_mode(options.take(i - 2)),
            settings.reverse_sort == chosen_reverse(options.take(i - 2)),
            settings.explore == chosen_explore(options.take(i - 2)),
        decreases args.len() - i,
    {
        let option = args[i].as_str();
        proof {
            let seen = options.take(i - 1);
            assert(seen.drop_last() =~= options.take(i - 2));
            assert(seen.last() == option@);
        }
        if same_text(option, "-n") || same_text(option, "--none") {
            settings.sort_mode = SortMode::Unsorted;
        } else if same_text(option, "-s") || same_text(option, "--size") {
            settings.sort_mode = SortMode::Size;
        } else if same_text(option, "-l") || same_text(option, "--lex") {
            settings.sort_mode = SortMode::Lex;
        }
        if same_text(option, "-r") || same_text(option, "--reverse") {
            settings.reverse_sort = !settings.reverse_sort;
        }
        if same_text(option, "-e") || same_text(option, "--explore") {
            settings.explore = !settings.explore;
        }
        i += 1;
    }
    assert(options.take(i - 2) =~= options);
    Some(settings)
}

} // verus!
