//! The size of an entry: a byte count, or unknown.
//!
//! Unknown stands for a size that could not be determined. It orders below
//! every known size.

use crate::color::Color;
use byte_unit::{Byte, ByteUnit};
use std::cmp::Ordering;
use vstd::prelude::*;

verus! {

/// A unit in which a byte count is shown.
#[derive(Debug, Clone, Copy, PartialEq, Eq, Structural)]
pub enum SizeUnit {
    B,
    KB,
    KiB,
    MB,
    MiB,
    GB,
    GiB,
    TB,
    TiB,
    PB,
    PiB,
}

/// The size of an entry.
#[derive(Debug, Clone, Copy, PartialEq, Eq, Structural)]
pub enum Size {
    /// So many bytes.
    Known(u64),
    /// Not determined, or not yet.
    Unknown,
}

/// The error of `fs_extra`, which a failed measurement comes with. It is
/// carried through unopened: nothing is claimed of what it holds.
#[verifier::external_type_specification]
#[verifier::external_body]
pub struct ExMeasureError(fs_extra::error::Error);

/// The decimal unit in which `bytes` is shown: the largest one that the count
/// exceeds, or plain bytes for a count of at most 1000.
pub open spec fn unit_for(bytes: u64) -> SizeUnit {
    if bytes > 1_000_000_000_000_000 {
        SizeUnit::PB
    } else if bytes > 1_000_000_000_000 {
        SizeUnit::TB
    } else if bytes > 1_000_000_000 {
        SizeUnit::GB
    } else if bytes > 1_000_000 {
        SizeUnit::MB
    } else if bytes > 1_000 {
        SizeUnit::KB
    } else {
        SizeUnit::B
    }
}

/// The text that `byte_unit` prints for `bytes` in the unit that suits it,
/// such as `1.50 KB`.
pub uninterp spec fn adjusted_text(bytes: u64) -> Seq<char>;

/// Calls `byte_unit::Byte::get_appropriate_unit` with decimal multiples and
/// reads the unit it chose. The contract restates the thresholds of that
/// function: each unit is chosen when the count is strictly above one of it.
#[verifier::external_body]
fn appropriate_unit(bytes: u64) -> (unit: SizeUnit)
    ensures
        unit == unit_for(bytes),
{
    match Byte::from_bytes(bytes).get_appropriate_unit(false).get_unit() {
        ByteUnit::B => SizeUnit::B,
        ByteUnit::KB => SizeUnit::KB,
        ByteUnit::KiB => SizeUnit::KiB,
        ByteUnit::MB => SizeUnit::MB,
        ByteUnit::MiB => SizeUnit::MiB,
        ByteUnit::GB => SizeUnit::GB,
        ByteUnit::GiB => SizeUnit::GiB,
        ByteUnit::TB => SizeUnit::TB,
        ByteUnit::TiB => SizeUnit::TiB,
        ByteUnit::PB => SizeUnit::PB,
        ByteUnit::PiB => SizeUnit::PiB,
    }
}

/// Formats `bytes` with the `Display` impl of `byte_unit::AdjustedByte`, in
/// the decimal unit that `byte_unit` picks. The contract only gives the
/// result its name.
#[verifier::external_body]
fn adjusted_text_of(bytes: u64) -> (text: String)
    ensures
        text@ == adjusted_text(bytes),
{
    format!("{}", Byte::from_bytes(bytes).get_appropriate_unit(false))
}

/// Whether `a` orders no later than `b`: unknown comes first, known sizes
/// go by their byte counts.
pub open spec fn size_le(a: Size, b: Size) -> bool {
    match (a, b) {
        (Size::Unknown, _) => true,
        (Size::Known(_), Size::Unknown) => false,
        (Size::Known(x), Size::Known(y)) => x <= y,
    }
}

/// How `a` compares with `b`.
pub open spec fn size_ordering(a: Size, b: Size) -> Ordering {
    if !size_le(b, a) {
        Ordering::Less
    } else if !size_le(a, b) {
        Ordering::Greater
    } else {
        Ordering::Equal
    }
}

/// The colour in which a size is shown. Sizes shown in gigabytes are graded
/// further: below 10 GB, below 25 GB, and the rest.
pub open spec fn size_color(size: Size) -> Color {
    match size {
        Size::Known(bytes) => match unit_for(bytes) {
            SizeUnit::B => Color::DarkGrey,
            SizeUnit::KB => Color::DarkGreen,
            SizeUnit::MB => Color::DarkYellow,
            SizeUnit::GB => if bytes < 10_000_000_000 {
                Color::DarkRed
            } else if bytes < 25_000_000_000 {
                Color::Red
            } else {
                Color::Magenta
            },
            _ => Color::Blue,
        },
        Size::Unknown => Color::Blue,
    }
}

/// The text in which a size is shown.
pub open spec fn size_text(size: Size) -> Seq<char> {
    match size {
        Size::Known(bytes) => adjusted_text(bytes),
        Size::Unknown => "unknown"@,
    }
}

impl Size {
    /// The unit in which this size is shown, if it is known.
    pub fn unit(&self) -> (unit: Option<SizeUnit>)
        ensures
            unit == match *self {
                Size::Known(bytes) => Some(unit_for(bytes)),
                Size::Unknown => None,
            },
    {
        match self {
            Size::Known(bytes) => Some(appropriate_unit(*bytes)),
            Size::Unknown => None,
        }
    }

    /// The colour in which this size is shown.
    pub fn get_color(&self) -> (color: Color)
        ensures
            color == size_color(*self),
    {
        match self {
            Size::Known(bytes) => match appropriate_unit(*bytes) {
                SizeUnit::B => Color::DarkGrey,
                SizeUnit::KB => Color::DarkGreen,
                SizeUnit::MB => Color::DarkYellow,
                SizeUnit::GB => {
                    if *bytes < 10_000_000_000 {
                        Color::DarkRed
                    } else if *bytes < 25_000_000_000 {
                        Color::Red
                    } else {
                        Color::Magenta
                    }
                },
                _ => Color::Blue,
            },
            Size::Unknown => Color::Blue,
        }
    }

    /// The text in which this size is shown: `unknown`, or the count in its
    /// unit.
    pub fn to_string(&self) -> (text: String)
        ensures
            text@ == size_text(*self),
    {
        match self {
            Size::Known(bytes) => adjusted_text_of(*bytes),
            Size::Unknown => "unknown".to_owned(),
        }
    }

    /// Compares two sizes: unknown is below every known size, and known
    /// sizes compare as their byte counts do.
    pub fn cmp(&self, other: &Size) -> (o: Ordering)
        ensures
            o == size_ordering(*self, *other),
    {
        match (self, other) {
            (Size::Unknown, Size::Unknown) => Ordering::Equal,
            (Size::Unknown, Size::Known(_)) => Ordering::Less,
            (Size::Known(_), Size::Unknown) => Ordering::Greater,
            (Size::Known(x), Size::Known(y)) => {
                if *x < *y {
                    Ordering::Less
                } else if *x > *y {
                    Ordering::Greater
                } else {
                    Ordering::Equal
                }
            },
        }
    }
}

impl PartialOrd for Size {
    fn partial_cmp(&self, other: &Size) -> (o: Option<Ordering>) {
        Some(self.cmp(other))
    }
}

impl vstd::std_specs::cmp::PartialOrdSpecImpl for Size {
    open spec fn obeys_partial_cmp_spec() -> bool {
        true
    }

    open spec fn partial_cmp_spec(&self, other: &Size) -> Option<Ordering> {
        Some(size_ordering(*self, *other))
    }
}

impl From<Result<u64, fs_extra::error::Error>> for Size {
    /// A measured byte count is a known size; a failed measurement leaves
    /// the size unknown.
    fn from(measured: Result<u64, fs_extra::error::Error>) -> (size: Size) {
        match measured {
            Ok(bytes) => Size::Known(bytes),
            Err(_) => Size::Unknown,
        }
    }
}

impl vstd::std_specs::convert::FromSpecImpl<Result<u64, fs_extra::error::Error>> for Size {
    open spec fn obeys_from_spec() -> bool {
        true
    }

    open spec fn from_spec(measured: Result<u64, fs_extra::error::Error>) -> Size {
        match measured {
            Ok(bytes) => Size::Known(bytes),
            Err(_) => Size::Unknown,
        }
    }
}

} // verus!
