//! The listing of a directory: how it is built from what was read, put in
//! order before and after the sizes are known, and handed to the renderer.
//!
//! A listing goes through these steps, in this order: `get_entries` builds
//! it and orders it by what is known at once; the caller measures the
//! directories and files among the entries one by one and reports each size
//! with `resolve_size`; then `post_sort` orders the listing by size if that
//! was asked for.

use crate::display::{shows, CursorOp, DisplayRecord, Redraw};
use crate::entry::{classify, measurable, EntryData, EntryType, FileTypeFlags};
use crate::order::{
    in_order, is_ordered, is_sorted, is_stable_sort, lemma_ordered_is_own_sort,
    lemma_stable_sort_permutes, Order, SortKey,
};
use crate::parse_args::{SearchSettings, SortMode};
use crate::path::DirPath;
use crate::size::Size;
use crate::sort::{reversed, sort_entries};
use vstd::prelude::*;

verus! {

/// The entries of one directory, in the order in which they are shown.
#[derive(Debug, Clone, PartialEq, Eq)]
pub struct EntryVec {
    /// The directory that is listed.
    pub path: DirPath,
    pub entries: Vec<EntryData>,
}

/// What reading one child of a directory gave.
#[derive(Debug, Clone, PartialEq, Eq)]
pub struct RawEntry {
    /// The name, byte for byte.
    pub name: Vec<u8>,
    /// The kind that the file system reports, or `None` where it could not
    /// be read.
    pub file_type: Option<FileTypeFlags>,
}

/// Why a directory could not be listed.
#[derive(Debug, Clone, Copy, PartialEq, Eq, Structural)]
pub enum ListError {
    /// The directory could not be opened.
    PathUnreadable,
    /// One of its children could not be read. A listing is all or nothing.
    EntryUnreadable,
}

/// The order by name, smallest first.
pub open spec fn by_name() -> Order {
    Order { key: SortKey::Name, descending: false }
}

/// The order by size: largest first, unless the order is turned round.
pub open spec fn by_size(reverse: bool) -> Order {
    Order { key: SortKey::Size, descending: !reverse }
}

/// `after` is `before` as the first pass leaves it: sorted stably by name if
/// that is the mode, and then turned round as a whole if that was asked for.
pub open spec fn is_pre_sorted(
    before: Seq<EntryData>,
    after: Seq<EntryData>,
    mode: SortMode,
    reverse: bool,
) -> bool {
    let arranged = if reverse {
        after.reverse()
    } else {
        after
    };
    if mode == SortMode::Lex {
        is_stable_sort(before, arranged, by_name())
    } else {
        arranged == before
    }
}

/// `after` is `before` as the second pass leaves it: sorted stably by size
/// if that is the mode, and untouched if not.
pub open spec fn is_post_sorted(
    before: Seq<EntryData>,
    after: Seq<EntryData>,
    mode: SortMode,
    reverse: bool,
) -> bool {
    if mode == SortMode::Size {
        is_stable_sort(before, after, by_size(reverse))
    } else {
        after == before
    }
}

/// No entry of unknown size stands before one of known size.
pub open spec fn unknown_sizes_last(s: Seq<EntryData>) -> bool {
    forall|i: int, j: int|
        0 <= i < j < s.len() && s[i].size is Unknown ==> s[j].size is Unknown
}

/// No entry of known size stands before one of unknown size.
pub open spec fn unknown_sizes_first(s: Seq<EntryData>) -> bool {
    forall|i: int, j: int|
        0 <= i < j < s.len() && s[j].size is Unknown ==> s[i].size is Unknown
}

/// The entry that a child becomes when it is first listed: its kind read
/// off the report, its size not yet known.
pub open spec fn enumerated_entry(child: RawEntry) -> EntryData {
    EntryData { name: child.name, typ: classify(child.file_type), size: Size::Unknown }
}

/// The entries that the children of a directory become, in the order in
/// which they were read.
pub open spec fn enumerated(children: Seq<Option<RawEntry>>) -> Seq<EntryData> {
    Seq::new(children.len(), |i: int| enumerated_entry(children[i].unwrap()))
}

/// Every child was read.
pub open spec fn all_readable(children: Seq<Option<RawEntry>>) -> bool {
    forall|i: int| 0 <= i < children.len() ==> (#[trigger] children[i]).is_some()
}

/// `width` is the length in bytes of the longest name in `s`, or 0 where
/// `s` is empty.
pub open spec fn is_longest_name(s: Seq<EntryData>, width: nat) -> bool {
    &&& forall|i: int| 0 <= i < s.len() ==> s[i].name@.len() <= width
    &&& if s.len() == 0 {
        width == 0
    } else {
        exists|i: int| 0 <= i < s.len() && s[i].name@.len() == width
    }
}

/// `records` are the lines of the listing `s`, one for each entry and in
/// the same order, with names padded to `width`.
pub open spec fn show_all(records: Seq<DisplayRecord>, s: Seq<EntryData>, width: nat) -> bool {
    &&& records.len() == s.len()
    &&& forall|i: int| 0 <= i < s.len() ==> shows(#[trigger] records[i], s[i], width)
}

impl EntryData {
    /// Records the outcome of measuring this entry. A directory or a file
    /// takes the measured size, or an unknown one where measuring failed. A
    /// link or an entry of unknown kind keeps an unknown size whatever was
    /// measured.
    pub fn resolve_size(&mut self, measured: Result<u64, fs_extra::error::Error>)
        ensures
            final(self).name == old(self).name,
            final(self).typ == old(self).typ,
            final(self).size == if measurable(old(self).typ) {
                match measured {
                    Ok(bytes) => Size::Known(bytes),
                    Err(_) => Size::Unknown,
                }
            } else {
                Size::Unknown
            },
    {
        if self.typ.can_measure() {
            self.size = Size::from(measured);
        } else {
            self.size = Size::Unknown;
        }
    }
}

impl EntryVec {
    /// The first pass, made before any size is known. By name, if that is
    /// the mode; otherwise the entries stay as they were read. Then the
    /// whole listing is turned round, if the order is to be reversed.
    pub fn pre_sort(&mut self, settings: &SearchSettings)
        ensures
            final(self).path == old(self).path,
            is_pre_sorted(
                old(self).entries@,
                final(self).entries@,
                settings.sort_mode,
                settings.reverse_sort,
            ),
            final(self).entries@.len() == old(self).entries@.len(),
            final(self).entries@.to_multiset() == old(self).entries@.to_multiset(),
    {
        let ghost before = self.entries@;
        match settings.sort_mode {
            SortMode::Lex => {
                sort_entries(&mut self.entries, Order { key: SortKey::Name, descending: false });
                proof {
                    lemma_stable_sort_permutes(before, self.entries@, by_name());
                }
            },
            _ => {},
        }
        if settings.reverse_sort {
            let ghost sorted = self.entries@;
            let mut taken: Vec<EntryData> = Vec::new();
            core::mem::swap(&mut self.entries, &mut taken);
            self.entries = reversed(taken);
            proof {
                assert(self.entries@.reverse() =~= sorted);
                sorted.lemma_reverse_to_multiset();
            }
        }
    }

    /// The second pass, made when every size is known. By size, if that is
    /// the mode: largest first, or smallest first where the order is
    /// reversed. Entries of the same size stay as the first pass left them.
    /// Any other mode leaves the listing as it is. The answer tells whether
    /// the listing has to be drawn again: it is `true` exactly when some
    /// entry has changed its place.
    pub fn post_sort(&mut self, settings: &SearchSettings) -> (redraw: bool)
        ensures
            redraw == (final(self).entries@ != old(self).entries@),
            final(self).path == old(self).path,
            is_post_sorted(
                old(self).entries@,
                final(self).entries@,
                settings.sort_mode,
                settings.reverse_sort,
            ),
            final(self).entries@.len() == old(self).entries@.len(),
            final(self).entries@.to_multiset() == old(self).entries@.to_multiset(),
            settings.sort_mode == SortMode::Size && !settings.reverse_sort ==> unknown_sizes_last(
                final(self).entries@,
            ),
            settings.sort_mode == SortMode::Size && settings.reverse_sort ==> unknown_sizes_first(
                final(self).entries@,
            ),
    {
        let ghost before = self.entries@;
        match settings.sort_mode {
            SortMode::Size => {
                let order = Order { key: SortKey::Size, descending: !settings.reverse_sort };
                if is_sorted(&self.entries, order) {
                    proof {
                        lemma_ordered_is_own_sort(before, order);
                        lemma_unknown_sizes_at_end(before, settings.reverse_sort);
                    }
                    false
                } else {
                    sort_entries(&mut self.entries, order);
                    proof {
                        lemma_stable_sort_permutes(before, self.entries@, order);
                        lemma_unknown_sizes_at_end(self.entries@, settings.reverse_sort);
                    }
                    true
                }
            },
            _ => false,
        }
    }

    /// The length in bytes of the longest name in the listing.
    pub fn longest_name(&self) -> (width: usize)
        ensures
            is_longest_name(self.entries@, width as nat),
    {
        let mut width: usize = 0;
        let mut i: usize = 0;
        while i < self.entries.len()
            invariant
                i <= self.entries@.len(),
                is_longest_name(self.entries@.take(i as int), width as nat),
            decreases self.entries.len() - i,
        {
            let ghost seen = self.entries@.take(i as int);
            let ghost next = self.entries@.take(i + 1);
            let len = self.entries[i].name.len();
            proof {
                assert(next[i as int] == self.entries@[i as int]);
                assert forall|k: int| 0 <= k < i implies next[k] == seen[k] by {}
                if len <= width && i > 0 {
                    let w = choose|w: int| 0 <= w < seen.len() && seen[w].name@.len() == width;
                    assert(next[w].name@.len() == width);
                }
            }
            if len > width {
                width = len;
            }
            i += 1;
        }
        assert(self.entries@.take(i as int) =~= self.entries@);
        width
    }

    /// The lines of the listing, one for each entry, with the names padded
    /// to the longest.
    pub fn records(&self) -> (records: Vec<DisplayRecord>)
        ensures
            exists|width: nat|
                is_longest_name(self.entries@, width) && show_all(records@, self.entries@, width),
    {
        let width = self.longest_name();
        let mut records: Vec<DisplayRecord> = Vec::new();
        let mut i: usize = 0;
        while i < self.entries.len()
            invariant
                i <= self.entries@.len(),
                records@.len() == i,
                forall|k: int|
                    0 <= k < i ==> shows(#[trigger] records@[k], self.entries@[k], width as nat),
            decreases self.entries.len() - i,
        {
            records.push(self.entries[i].display_record(width));
            i += 1;
        }
        assert(show_all(records@, self.entries@, width as nat));
        records
    }

    /// What to draw for a listing that is shown for the first time: the
    /// screen is cleared, and the lines follow.
    pub fn first_print(&self) -> (redraw: Redraw)
        ensures
            redraw.cursor == CursorOp::ClearAndHome,
            exists|width: nat|
                is_longest_name(self.entries@, width) && show_all(
                    redraw.records@,
                    self.entries@,
                    width,
                ),
    {
        Redraw { cursor: CursorOp::ClearAndHome, records: self.records() }
    }

    /// What to draw for a listing that stands on the screen and has been
    /// put in another order: the cursor goes up by as many lines as there
    /// are entries, and the lines are drawn over. A listing of more than
    /// `u16::MAX` entries cannot be drawn over, and the answer is `None`.
    pub fn reprint(&self) -> (redraw: Option<Redraw>)
        ensures
            redraw.is_some() <==> self.entries@.len() <= u16::MAX,
            redraw matches Some(r) ==> {
                &&& r.cursor == CursorOp::UpToLineStart(self.entries@.len() as u16)
                &&& exists|width: nat|
                    is_longest_name(self.entries@, width) && show_all(
                        r.records@,
                        self.entries@,
                        width,
                    )
            },
    {
        let count = self.entries.len();
        if count > 0xffff {
            return None;
        }
        Some(Redraw { cursor: CursorOp::UpToLineStart(count as u16), records: self.records() })
    }
}

/// In a listing in order of size, the entries of unknown size stand
/// together at one end: at the back where the largest come first, at the
/// front where the smallest do.
pub proof fn lemma_unknown_sizes_at_end(s: Seq<EntryData>, reverse: bool)
    requires
        is_ordered(s, by_size(reverse)),
    ensures
        !reverse ==> unknown_sizes_last(s),
        reverse ==> unknown_sizes_first(s),
{
    let order = by_size(reverse);
    assert forall|i: int, j: int| 0 <= i < j < s.len() implies if reverse {
        s[j].size is Unknown ==> s[i].size is Unknown
    } else {
        s[i].size is Unknown ==> s[j].size is Unknown
    } by {
        assert(in_order(order, s[i], s[j]));
    }
}

/// Lists a directory from what was read of it. `read` is `None` where the
/// directory could not be opened, and holds `None` for each child that
/// could not be read. Either failure fails the listing as a whole. Where
/// all went well, each child becomes one entry, of the kind that its report
/// gives and of a size still unknown, and the listing is put through the
/// first pass.
pub fn get_entries(settings: &SearchSettings, read: Option<Vec<Option<RawEntry>>>) -> (listed:
    Result<EntryVec, ListError>)
    ensures
        read.is_none() ==> listed == Err::<EntryVec, ListError>(ListError::PathUnreadable),
        read matches Some(children) ==> {
            if all_readable(children@) {
                &&& listed matches Ok(listing)
                &&& listing.path@ == settings.path@
                &&& is_pre_sorted(
                    enumerated(children@),
                    listing.entries@,
                    settings.sort_mode,
                    settings.reverse_sort,
                )
                &&& listing.entries@.len() == children@.len()
                &&& listing.entries@.to_multiset() == enumerated(children@).to_multiset()
            } else {
                listed == Err::<EntryVec, ListError>(ListError::EntryUnreadable)
            }
        },
{
    let children = match read {
        Some(children) => children,
        None => {
            return Err(ListError::PathUnreadable);
        },
    };
    let ghost all = children@;
    let mut children = reversed(children);
    let mut listing = EntryVec { path: settings.path.duplicate(), entries: Vec::new() };
    while children.len() > 0
        invariant
            read.is_some(),
            read.unwrap()@ == all,
            children@.len() + listing.entries@.len() == all.len(),
            forall|k: int| 0 <= k < children@.len() ==> children@[k] == all[all.len() - 1 - k],
            all_readable(all.take(listing.entries@.len() as int)),
            listing.entries@ == enumerated(all.take(listing.entries@.len() as int)),
            listing.path@ == settings.path@,
        decreases children.len(),
    {
        let ghost done = listing.entries@.len() as int;
        match children.pop().unwrap() {
            Some(child) => {
                let typ = EntryType::from(child.file_type);
                listing.entries.push(EntryData { name: child.name, typ, size: Size::Unknown });
                proof {
                    assert(all[done] == Some(child));
                    let seen = all.take(done + 1);
                    assert forall|i: int| 0 <= i < seen.len() implies (#[trigger] seen[i]).is_some() by {
                        if i < done {
                            assert(all.take(done)[i].is_some());
                        }
                    }
                    assert(listing.entries@ =~= enumerated(all.take(done + 1)));
                }
            },
            None => {
                proof {
                    assert(all[done].is_none());
                }
                return Err(ListError::EntryUnreadable);
            },
        }
    }
    proof {
        assert(all.take(all.len() as int) =~= all);
    }
    listing.pre_sort(settings);
    Ok(listing)
}

} // verus!
