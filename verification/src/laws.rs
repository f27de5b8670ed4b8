//! What holds of the two passes taken together, whatever the listing.

use crate::entry::EntryData;
use crate::get_entries::{by_name, is_post_sorted, is_pre_sorted};
use crate::names::{lemma_lex_le_antisymmetric, lex_le};
use crate::order::{
    in_order, is_stable_sort, lemma_reverse_of_sort, lemma_stable_sort_members, ranks_distinct,
    same_rank, Order, SortKey,
};
use crate::parse_args::SortMode;
use vstd::prelude::*;

verus! {

/// The lower-case form of an ASCII upper-case letter; any other byte is left
/// as it is.
pub open spec fn fold_byte(b: u8) -> u8 {
    if 0x41 <= b <= 0x5a {
        (b + 0x20) as u8
    } else {
        b
    }
}

/// A name with each of its ASCII upper-case letters folded to lower case.
pub open spec fn fold(name: Seq<u8>) -> Seq<u8> {
    Seq::new(name.len(), |i: int| fold_byte(name[i]))
}

/// The names of `s` stand in dictionary order, smallest first.
pub open spec fn names_ascend(s: Seq<EntryData>) -> bool {
    forall|i: int| 0 <= i < s.len() - 1 ==> lex_le(#[trigger] s[i].name@, s[i + 1].name@)
}

/// The names of `s` stand in dictionary order, largest first.
pub open spec fn names_descend(s: Seq<EntryData>) -> bool {
    forall|i: int| 0 <= i < s.len() - 1 ==> lex_le(s[i + 1].name@, #[trigger] s[i].name@)
}

/// The names of `s`, each folded to lower case, stand in dictionary order.
pub open spec fn folded_names_ascend(s: Seq<EntryData>) -> bool {
    forall|i: int|
        0 <= i < s.len() - 1 ==> lex_le(fold(#[trigger] s[i].name@), fold(s[i + 1].name@))
}

/// On the names of `s`, the order of the bytes and the order of the folded
/// bytes agree: a name that comes no later than another still does when
/// both are folded to lower case.
pub open spec fn folding_keeps_order(s: Seq<EntryData>) -> bool {
    forall|i: int, j: int|
        0 <= i < s.len() && 0 <= j < s.len() && lex_le(s[i].name@, s[j].name@) ==> lex_le(
            fold(s[i].name@),
            fold(s[j].name@),
        )
}

/// No two entries of `s` bear the same name.
pub open spec fn names_distinct(s: Seq<EntryData>) -> bool {
    forall|i: int, j: int| 0 <= i < j < s.len() ==> s[i].name@ != s[j].name@
}

/// Entries that rank alike by name bear the same name, so in a listing
/// where all names differ no two entries rank alike.
pub proof fn lemma_distinct_names_rank_apart(s: Seq<EntryData>)
    requires
        names_distinct(s),
    ensures
        ranks_distinct(s, SortKey::Name),
{
    assert forall|i: int, j: int| 0 <= i < j < s.len() implies !same_rank(
        SortKey::Name,
        s[i],
        s[j],
    ) by {
        if same_rank(SortKey::Name, s[i], s[j]) {
            lemma_lex_le_antisymmetric(s[i].name@, s[j].name@);
        }
    }
}

/// Without a criterion the two passes keep the entries as they were read,
/// and with reversal they give them exactly the other way round.
pub proof fn lemma_unsorted_keeps_enumeration(
    read: Seq<EntryData>,
    first: Seq<EntryData>,
    second: Seq<EntryData>,
    reverse: bool,
)
    requires
        is_pre_sorted(read, first, SortMode::Unsorted, reverse),
        is_post_sorted(first, second, SortMode::Unsorted, reverse),
    ensures
        second == if reverse {
            read.reverse()
        } else {
            read
        },
{
    if reverse {
        assert(first.reverse().reverse() =~= first);
    }
}

/// Sorting by size leaves the first pass to keep the entries as they were
/// read, or turned round: entries of one size then follow each other in
/// that order.
pub proof fn lemma_size_mode_first_pass(read: Seq<EntryData>, first: Seq<EntryData>, reverse: bool)
    requires
        is_pre_sorted(read, first, SortMode::Size, reverse),
    ensures
        first == if reverse {
            read.reverse()
        } else {
            read
        },
{
    if reverse {
        assert(first.reverse().reverse() =~= first);
    }
}

/// In name mode, without reversal, each name comes no later than the next.
pub proof fn lemma_lex_ascends(read: Seq<EntryData>, first: Seq<EntryData>, second: Seq<EntryData>)
    requires
        is_pre_sorted(read, first, SortMode::Lex, false),
        is_post_sorted(first, second, SortMode::Lex, false),
    ensures
        names_ascend(second),
{
    assert forall|i: int| 0 <= i < second.len() - 1 implies lex_le(
        #[trigger] second[i].name@,
        second[i + 1].name@,
    ) by {
        assert(in_order(by_name(), second[i], second[i + 1]));
    }
}

/// In name mode, without reversal, the folded names are in order too,
/// wherever folding does not disturb the order of the names at hand.
pub proof fn lemma_lex_ascends_folded(
    read: Seq<EntryData>,
    first: Seq<EntryData>,
    second: Seq<EntryData>,
)
    requires
        is_pre_sorted(read, first, SortMode::Lex, false),
        is_post_sorted(first, second, SortMode::Lex, false),
        folding_keeps_order(read),
    ensures
        folded_names_ascend(second),
{
    lemma_lex_ascends(read, first, second);
    assert forall|i: int| 0 <= i < second.len() - 1 implies lex_le(
        fold(#[trigger] second[i].name@),
        fold(second[i + 1].name@),
    ) by {
        lemma_stable_sort_members(read, second, by_name(), i);
        lemma_stable_sort_members(read, second, by_name(), i + 1);
        let a = choose|a: int| 0 <= a < read.len() && read[a] == second[i];
        let b = choose|b: int| 0 <= b < read.len() && read[b] == second[i + 1];
        assert(lex_le(read[a].name@, read[b].name@));
    }
}

/// In name mode with reversal, where no two entries bear the same name, the
/// outcome is what sorting with the comparison turned round gives: each
/// name comes no earlier than the next.
pub proof fn lemma_lex_reversed_descends(
    read: Seq<EntryData>,
    first: Seq<EntryData>,
    second: Seq<EntryData>,
)
    requires
        is_pre_sorted(read, first, SortMode::Lex, true),
        is_post_sorted(first, second, SortMode::Lex, true),
        names_distinct(read),
    ensures
        is_stable_sort(read, second, Order { key: SortKey::Name, descending: true }),
        names_descend(second),
{
    lemma_distinct_names_rank_apart(read);
    lemma_reverse_of_sort(read, second, by_name());
    let down = Order { key: SortKey::Name, descending: true };
    assert forall|i: int| 0 <= i < second.len() - 1 implies lex_le(
        second[i + 1].name@,
        #[trigger] second[i].name@,
    ) by {
        assert(in_order(down, second[i], second[i + 1]));
    }
}

} // verus!
