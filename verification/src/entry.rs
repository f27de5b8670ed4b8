//! One child of a directory: its name, its kind and its size.

use crate::color::Color;
use crate::size::Size;
use vstd::prelude::*;
use vstd::string::StringExecFns;

verus! {

/// The kind of an entry.
#[derive(Debug, Clone, Copy, PartialEq, Eq, Structural)]
pub enum EntryType {
    /// The kind could not be read, or is none of the others.
    Unknown,
    Dir,
    File,
    Symlink,
}

/// What the file system reports of a child's kind.
#[derive(Debug, Clone, Copy, PartialEq, Eq, Structural)]
pub struct FileTypeFlags {
    pub is_dir: bool,
    pub is_file: bool,
    pub is_symlink: bool,
}

/// The kind that a report stands for. A missing report, where the metadata
/// could not be read, gives `Unknown`. Where more than one flag is set, a
/// directory goes before a file, and a file before a link.
pub open spec fn classify(report: Option<FileTypeFlags>) -> EntryType {
    match report {
        Some(flags) => if flags.is_dir {
            EntryType::Dir
        } else if flags.is_file {
            EntryType::File
        } else if flags.is_symlink {
            EntryType::Symlink
        } else {
            EntryType::Unknown
        },
        None => EntryType::Unknown,
    }
}

/// The colour in which a kind is shown.
pub open spec fn type_color(typ: EntryType) -> Color {
    match typ {
        EntryType::Unknown => Color::DarkRed,
        EntryType::Dir => Color::White,
        EntryType::File => Color::Green,
        EntryType::Symlink => Color::Blue,
    }
}

/// The letter that stands for a kind.
pub open spec fn type_symbol(typ: EntryType) -> char {
    match typ {
        EntryType::Unknown => '?',
        EntryType::Dir => 'D',
        EntryType::File => 'F',
        EntryType::Symlink => 'L',
    }
}

/// Whether an entry of this kind can be entered: a directory, or a link,
/// which may lead to one.
pub open spec fn explorable(typ: EntryType) -> bool {
    typ == EntryType::Dir || typ == EntryType::Symlink
}

/// Whether the size of an entry of this kind is measured at all. A link or
/// an entry of unknown kind keeps an unknown size.
pub open spec fn measurable(typ: EntryType) -> bool {
    typ == EntryType::Dir || typ == EntryType::File
}

impl EntryType {
    /// The colour in which this kind is shown.
    pub fn get_color(&self) -> (color: Color)
        ensures
            color == type_color(*self),
    {
        match self {
            EntryType::Unknown => Color::DarkRed,
            EntryType::Dir => Color::White,
            EntryType::File => Color::Green,
            EntryType::Symlink => Color::Blue,
        }
    }

    /// The letter that stands for this kind.
    pub fn symbol(&self) -> (c: char)
        ensures
            c == type_symbol(*self),
    {
        match self {
            EntryType::Unknown => '?',
            EntryType::Dir => 'D',
            EntryType::File => 'F',
            EntryType::Symlink => 'L',
        }
    }

    /// The letter that stands for this kind, as a text.
    pub fn to_string(&self) -> (text: String)
        ensures
            text@ == seq![type_symbol(*self)],
    {
        proof {
            reveal_strlit("?");
            reveal_strlit("D");
            reveal_strlit("F");
            reveal_strlit("L");
        }
        let text = match self {
            EntryType::Unknown => String::from_str("?"),
            EntryType::Dir => String::from_str("D"),
            EntryType::File => String::from_str("F"),
            EntryType::Symlink => String::from_str("L"),
        };
        assert(text@ =~= seq![type_symbol(*self)]);
        text
    }

    /// Decides whether an entry of this kind can be entered.
    pub fn can_explore(&self) -> (r: bool)
        ensures
            r == explorable(*self),
    {
        match self {
            EntryType::Dir | EntryType::Symlink => true,
            EntryType::File | EntryType::Unknown => false,
        }
    }

    /// Decides whether the size of an entry of this kind is measured.
    pub fn can_measure(&self) -> (r: bool)
        ensures
            r == measurable(*self),
    {
        match self {
            EntryType::Dir | EntryType::File => true,
            EntryType::Symlink | EntryType::Unknown => false,
        }
    }
}

impl From<Option<FileTypeFlags>> for EntryType {
    fn from(report: Option<FileTypeFlags>) -> (typ: EntryType) {
        match report {
            Some(flags) => {
                if flags.is_dir {
                    EntryType::Dir
                } else if flags.is_file {
                    EntryType::File
                } else if flags.is_symlink {
                    EntryType::Symlink
                } else {
                    EntryType::Unknown
                }
            },
            None => EntryType::Unknown,
        }
    }
}

impl vstd::std_specs::convert::FromSpecImpl<Option<FileTypeFlags>> for EntryType {
    open spec fn obeys_from_spec() -> bool {
        true
    }

    open spec fn from_spec(report: Option<FileTypeFlags>) -> EntryType {
        classify(report)
    }
}

/// One entry of a listing.
#[derive(Debug, Clone, PartialEq, Eq)]
pub struct EntryData {
    /// The name as the file system gave it, byte for byte.
    pub name: Vec<u8>,
    pub typ: EntryType,
    pub size: Size,
}

} // verus!
