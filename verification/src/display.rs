//! What the renderer is handed: one record for each entry, and the cursor
//! movement that goes before a listing is drawn.

use crate::color::Color;
use crate::entry::{type_color, type_symbol, EntryData, EntryType};
use crate::size::{size_color, size_text, Size};
use crate::text::{lossy, lossy_text, pad_left, pad_right, padded_left, padded_right};
use vstd::prelude::*;
use vstd::string::StringExecFns;
use vstd::utf8::{decode_utf8, valid_utf8};

verus! {

/// The width to which the size of an entry is aligned.
pub const SIZE_WIDTH: usize = 9;

/// One line of a listing, ready to be drawn: three cells and the colours of
/// the first and the last.
#[derive(Debug, Clone, PartialEq, Eq)]
pub struct DisplayRecord {
    /// The kind, as a letter in brackets.
    pub kind_text: String,
    pub kind_color: Color,
    /// The name between two spaces, padded so that the sizes line up.
    pub name_text: String,
    /// The size, aligned to the right, and the end of the line.
    pub size_text: String,
    pub size_color: Color,
}

/// How the cursor moves before a listing is drawn.
#[derive(Debug, Clone, Copy, PartialEq, Eq, Structural)]
pub enum CursorOp {
    /// Clear the screen and go to its top left corner: a fresh listing
    /// follows.
    ClearAndHome,
    /// Go up so many lines and to the first column: the listing that stands
    /// there is drawn over.
    UpToLineStart(u16),
}

/// A listing to be drawn: where to begin, and the lines.
#[derive(Debug, Clone, PartialEq, Eq)]
pub struct Redraw {
    pub cursor: CursorOp,
    pub records: Vec<DisplayRecord>,
}

/// The cell that shows a kind.
pub open spec fn kind_cell(typ: EntryType) -> Seq<char> {
    seq!['(', type_symbol(typ), ')']
}

/// The text in which a name is shown: the name itself where it is valid
/// UTF-8, and what `String::from_utf8_lossy` reads out of it where not.
pub open spec fn name_text(name: Seq<u8>) -> Seq<char> {
    if valid_utf8(name) {
        decode_utf8(name)
    } else {
        lossy_text(name)
    }
}

/// The cell that shows a name: the name as text, padded on the right to
/// `width` characters, with a space on either side.
pub open spec fn name_cell(name: Seq<u8>, width: nat) -> Seq<char> {
    seq![' '] + padded_right(name_text(name), width) + seq![' ']
}

/// The cell that shows a size: its text, aligned to the right, and a line
/// break.
pub open spec fn size_cell(size: Size) -> Seq<char> {
    padded_left(size_text(size), SIZE_WIDTH as nat) + seq!['\n']
}

/// `record` is what is shown of `entry` when names are padded to `width`.
pub open spec fn shows(record: DisplayRecord, entry: EntryData, width: nat) -> bool {
    &&& record.kind_text@ == kind_cell(entry.typ)
    &&& record.kind_color == type_color(entry.typ)
    &&& record.name_text@ == name_cell(entry.name@, width)
    &&& record.size_text@ == size_cell(entry.size)
    &&& record.size_color == size_color(entry.size)
}

impl EntryData {
    /// What is shown of this entry when names are padded to `padding`
    /// characters.
    pub fn display_record(&self, padding: usize) -> (record: DisplayRecord)
        ensures
            shows(record, *self, padding as nat),
    {
        proof {
            reveal_strlit("(");
            reveal_strlit(")");
            reveal_strlit(" ");
            reveal_strlit("\n");
        }
        let mut kind_text = String::from_str("(");
        kind_text.append(self.typ.to_string().as_str());
        kind_text.append(")");
        assert(kind_text@ =~= kind_cell(self.typ));

        let name = lossy(self.name.as_slice());
        let mut name_text = String::from_str(" ");
        name_text.append(pad_right(name.as_str(), padding).as_str());
        name_text.append(" ");
        assert(name_text@ =~= name_cell(self.name@, padding as nat));

        let mut size_text = pad_left(self.size.to_string().as_str(), SIZE_WIDTH);
        size_text.append("\n");
        assert(size_text@ =~= size_cell(self.size));

        DisplayRecord {
            kind_text,
            kind_color: self.typ.get_color(),
            name_text,
            size_text,
            size_color: self.size.get_color(),
        }
    }
}

} // verus!
