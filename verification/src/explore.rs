//! Browsing: what a line of input means, and where it leads.
//!
//! The browser is a small state machine. The caller reads a line, asks
//! `explore` what to do, does it, and lists the directory anew whenever the
//! answer is `Relist`. The listing that a line is read against is the one
//! that was shown last.

use crate::display_number::{char_to_num, value_of};
use crate::entry::{explorable, EntryData, EntryType};
use crate::get_entries::EntryVec;
use crate::parse_args::{SearchSettings, SettingsView};
use crate::path::PathView;
use crate::text::{as_text, chars_of, lowercase, lowercase_of, same_text, trim, trimmed};
use vstd::prelude::*;
use vstd::utf8::{decode_utf8, valid_utf8};

verus! {

/// What is shown when an empty line is entered.
pub const HELP_MESSAGE: &'static str =
    "Enter the name of a directory to go to that directory
-b --back  Go up 1 directory
-e --exit  Exit the app";

/// What a line of input asks for.
#[derive(Debug, Clone, Copy, PartialEq, Eq, Structural)]
pub enum Command {
    /// Nothing was entered.
    Help,
    /// Leave the browser.
    Exit,
    /// Go up one directory.
    Back,
    /// Go to the entry at this place in the listing.
    Open(usize),
    /// The line names no command and no entry.
    Unresolved,
}

/// What the caller is to do after a line of input.
#[derive(Debug, Clone, Copy, PartialEq, Eq, Structural)]
pub enum Action {
    /// Show the help text.
    ShowHelp,
    /// Stop reading input.
    Exit,
    /// The directory has changed: list it anew.
    Relist,
    /// Tell the user that there is nowhere to go back to.
    UnableToGoBack,
    /// Tell the user that an entry of this kind cannot be entered.
    CannotExplore(EntryType),
    /// Nothing to do but ask again.
    Reprompt,
}

/// Where the browser stands: the settings of the run, whose path is the
/// directory that is being shown.
#[derive(Debug, Clone, PartialEq, Eq)]
pub struct NavigationState {
    pub settings: SearchSettings,
}

/// The browser: at work in some directory, or done.
#[derive(Debug, Clone, PartialEq, Eq)]
pub enum Navigator {
    Browsing(NavigationState),
    Exited,
}

impl View for Navigator {
    type V = Option<SettingsView>;

    /// The settings under which the browser is at work, or `None` when it
    /// is done.
    open spec fn view(&self) -> Option<SettingsView> {
        match *self {
            Navigator::Browsing(state) => Some(state.settings@),
            Navigator::Exited => None,
        }
    }
}

/// Whether a lower-cased line is the command to leave.
pub open spec fn is_exit_command(lowered: Seq<char>) -> bool {
    lowered == "-e"@ || lowered == "--exit"@
}

/// Whether a lower-cased line is the command to go back.
pub open spec fn is_back_command(lowered: Seq<char>) -> bool {
    lowered == "-b"@ || lowered == "--back"@
}

/// The form in which a name is held against a token: its text in lower
/// case. A name that is not valid UTF-8 is no text and has no such form.
pub open spec fn name_key(name: Seq<u8>) -> Option<Seq<char>> {
    if valid_utf8(name) {
        Some(lowercase_of(decode_utf8(name)))
    } else {
        None
    }
}

/// Whether a name, in lower case, reads `lowered`.
pub open spec fn name_matches(name: Seq<u8>, lowered: Seq<char>) -> bool {
    name_key(name) == Some(lowered)
}

/// The place of the first entry from `from` on whose name, in lower case,
/// reads `lowered`.
pub open spec fn name_match_from(entries: Seq<EntryData>, lowered: Seq<char>, from: int) -> Option<
    int,
>
    decreases entries.len() - from,
{
    if from < 0 || from >= entries.len() {
        None
    } else if name_matches(entries[from].name@, lowered) {
        Some(from)
    } else {
        name_match_from(entries, lowered, from + 1)
    }
}

/// The place of the first entry whose name, in lower case, reads `lowered`.
pub open spec fn name_match(entries: Seq<EntryData>, lowered: Seq<char>) -> Option<int> {
    name_match_from(entries, lowered, 0)
}

/// The place that `token` gives as a number: `token` is a single base-62
/// digit, and its value is a place in the listing.
pub open spec fn index_match(entries: Seq<EntryData>, token: Seq<char>) -> Option<int> {
    if token.len() == 1 {
        match value_of(token[0]) {
            Some(n) => if n < entries.len() {
                Some(n as int)
            } else {
                None
            },
            None => None,
        }
    } else {
        None
    }
}

/// The entry that a token selects: by name if a name matches, by number if
/// none does.
pub open spec fn selection(entries: Seq<EntryData>, token: Seq<char>, lowered: Seq<char>) -> Option<
    int,
> {
    match name_match(entries, lowered) {
        Some(i) => Some(i),
        None => index_match(entries, token),
    }
}

/// What a line asks for, given the line without the white space at its
/// ends and the same in lower case.
pub open spec fn interpretation(
    entries: Seq<EntryData>,
    token: Seq<char>,
    lowered: Seq<char>,
) -> Command {
    if token.len() == 0 {
        Command::Help
    } else if is_exit_command(lowered) {
        Command::Exit
    } else if is_back_command(lowered) {
        Command::Back
    } else {
        match selection(entries, token, lowered) {
            Some(i) => Command::Open(i as usize),
            None => Command::Unresolved,
        }
    }
}

/// The path one directory further down.
pub open spec fn descended(settings: SettingsView, name: Seq<u8>) -> SettingsView {
    SettingsView {
        path: PathView { root: settings.path.root, segments: settings.path.segments.push(name) },
        ..settings
    }
}

/// The path one directory further up.
pub open spec fn ascended(settings: SettingsView) -> SettingsView {
    SettingsView {
        path: PathView {
            root: settings.path.root,
            segments: settings.path.segments.drop_last(),
        },
        ..settings
    }
}

/// Where a command leads from `state`, with `entries` on the screen, and
/// what the caller is to do. A browser that is done stays done.
pub open spec fn step(state: Option<SettingsView>, entries: Seq<EntryData>, command: Command) -> (
    Option<SettingsView>,
    Action,
) {
    match state {
        None => (None, Action::Exit),
        Some(settings) => match command {
            Command::Help => (state, Action::ShowHelp),
            Command::Exit => (None, Action::Exit),
            Command::Back => if settings.path.segments.len() > 0 {
                (Some(ascended(settings)), Action::Relist)
            } else {
                (state, Action::UnableToGoBack)
            },
            Command::Open(i) => if i < entries.len() {
                if explorable(entries[i as int].typ) {
                    (Some(descended(settings, entries[i as int].name@)), Action::Relist)
                } else {
                    (state, Action::CannotExplore(entries[i as int].typ))
                }
            } else {
                (state, Action::Reprompt)
            },
            Command::Unresolved => (state, Action::Reprompt),
        },
    }
}

/// What the first match by name is: an entry whose name in lower case
/// reads `lowered`, with none such before it. Where there is no match, no
/// entry has such a name.
pub proof fn lemma_name_match(entries: Seq<EntryData>, lowered: Seq<char>)
    ensures
        match name_match(entries, lowered) {
            Some(i) => {
                &&& 0 <= i < entries.len()
                &&& name_matches(entries[i].name@, lowered)
                &&& forall|j: int| 0 <= j < i ==> !name_matches(#[trigger] entries[j].name@, lowered)
            },
            None => forall|j: int|
                0 <= j < entries.len() ==> !name_matches(#[trigger] entries[j].name@, lowered),
        },
{
    lemma_name_match_from(entries, lowered, 0);
}

proof fn lemma_name_match_from(entries: Seq<EntryData>, lowered: Seq<char>, from: int)
    requires
        0 <= from,
    ensures
        match name_match_from(entries, lowered, from) {
            Some(i) => {
                &&& from <= i < entries.len()
                &&& name_matches(entries[i].name@, lowered)
                &&& forall|j: int|
                    from <= j < i ==> !name_matches(#[trigger] entries[j].name@, lowered)
            },
            None => forall|j: int|
                from <= j < entries.len() ==> !name_matches(#[trigger] entries[j].name@, lowered),
        },
    decreases entries.len() - from,
{
    if from < entries.len() && !name_matches(entries[from].name@, lowered) {
        lemma_name_match_from(entries, lowered, from + 1);
    }
}

/// Matching by name ignores case on both sides alike. A token that reads
/// as the name of an entry, whatever the case of either, selects that entry
/// or an earlier one whose name reads the same. A token that is the very
/// name of an entry is such a token.
pub proof fn lemma_name_selects(entries: Seq<EntryData>, token: Seq<char>, i: int)
    requires
        0 <= i < entries.len(),
        valid_utf8(entries[i].name@),
        lowercase_of(decode_utf8(entries[i].name@)) == lowercase_of(token),
    ensures
        selection(entries, token, lowercase_of(token)) matches Some(j) && 0 <= j <= i
            && name_matches(entries[j].name@, lowercase_of(token)),
{
    lemma_name_match(entries, lowercase_of(token));
    assert(name_matches(entries[i].name@, lowercase_of(token)));
}

impl Navigator {
    /// A browser at work under `settings`, in the directory that they name.
    pub fn new(settings: SearchSettings) -> (nav: Navigator)
        ensures
            nav@ == Some(settings@),
    {
        Navigator::Browsing(NavigationState { settings })
    }

    /// Whether the browser is done.
    pub fn is_exited(&self) -> (done: bool)
        ensures
            done == self@.is_none(),
    {
        match self {
            Navigator::Browsing(_) => false,
            Navigator::Exited => true,
        }
    }
}

/// Decides whether a name, in lower case, reads `lowered`.
pub fn reads_as(name: &[u8], lowered: &str) -> (r: bool)
    ensures
        r == name_matches(name@, lowered@),
{
    match as_text(name) {
        Some(text) => same_text(lowercase(text).as_str(), lowered),
        None => false,
    }
}

/// Finds the entry that a token selects. `lowered` is the token in lower
/// case. A match by name goes first, the first such entry winning; failing
/// that, a token of one base-62 digit selects the entry at that place.
pub fn select(listing: &EntryVec, token: &str, lowered: &str) -> (found: Option<usize>)
    ensures
        match found {
            Some(i) => selection(listing.entries@, token@, lowered@) == Some(i as int) && i
                < listing.entries@.len(),
            None => selection(listing.entries@, token@, lowered@).is_none(),
        },
{
    let count = listing.entries.len();
    let mut i: usize = 0;
    while i < count
        invariant
            i <= count,
            count == listing.entries@.len(),
            name_match(listing.entries@, lowered@) == name_match_from(
                listing.entries@,
                lowered@,
                i as int,
            ),
        decreases count - i,
    {
        if reads_as(listing.entries[i].name.as_slice(), lowered) {
            return Some(i);
        }
        i += 1;
    }
    let chars = chars_of(token);
    if chars.len() == 1 {
        match char_to_num(chars[0]) {
            Some(n) => {
                if n < count {
                    Some(n)
                } else {
                    None
                }
            },
            None => None,
        }
    } else {
        None
    }
}

/// Reads a command off a line. `token` is the line without the white space
/// at its ends, `lowered` the same in lower case.
pub fn interpret(listing: &EntryVec, token: &str, lowered: &str) -> (command: Command)
    ensures
        command == interpretation(listing.entries@, token@, lowered@),
        command matches Command::Open(i) ==> i < listing.entries@.len(),
{
    if token.is_empty() {
        Command::Help
    } else if same_text(lowered, "-e") || same_text(lowered, "--exit") {
        Command::Exit
    } else if same_text(lowered, "-b") || same_text(lowered, "--back") {
        Command::Back
    } else {
        match select(listing, token, lowered) {
            Some(i) => Command::Open(i),
            None => Command::Unresolved,
        }
    }
}

/// Carries a command out on the browser and says what the caller is to do.
/// Going back pops the last directory entered, and does nothing at the
/// start. Opening an entry enters it if it is a directory or a link, and
/// leaves the browser where it is if not.
pub fn apply(nav: Navigator, listing: &EntryVec, command: Command) -> (next: (Navigator, Action))
    ensures
        (next.0@, next.1) == step(nav@, listing.entries@, command),
{
    let mut state = match nav {
        Navigator::Browsing(state) => state,
        Navigator::Exited => {
            return (Navigator::Exited, Action::Exit);
        },
    };
    match command {
        Command::Help => (Navigator::Browsing(state), Action::ShowHelp),
        Command::Exit => (Navigator::Exited, Action::Exit),
        Command::Back => {
            if state.settings.path.pop() {
                (Navigator::Browsing(state), Action::Relist)
            } else {
                (Navigator::Browsing(state), Action::UnableToGoBack)
            }
        },
        Command::Open(i) => {
            if i < listing.entries.len() {
                let entry = &listing.entries[i];
                if entry.typ.can_explore() {
                    state.settings.path.push(entry.name.as_slice());
                    (Navigator::Browsing(state), Action::Relist)
                } else {
                    (Navigator::Browsing(state), Action::CannotExplore(entry.typ))
                }
            } else {
                (Navigator::Browsing(state), Action::Reprompt)
            }
        },
        Command::Unresolved => (Navigator::Browsing(state), Action::Reprompt),
    }
}

/// Takes one line of input against the listing on the screen. The line is
/// trimmed, read as a command, and the command is carried out.
pub fn explore(nav: Navigator, listing: &EntryVec, line: &str) -> (next: (Navigator, Action))
    ensures
        (next.0@, next.1) == step(
            nav@,
            listing.entries@,
            interpretation(
                listing.entries@,
                trimmed(line@),
                lowercase_of(trimmed(line@)),
            ),
        ),
{
    let token = trim(line);
    let lowered = lowercase(token);
    let command = interpret(listing, token, lowered.as_str());
    apply(nav, listing, command)
}

} // verus!
