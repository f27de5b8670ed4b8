use filesize_utility::entry::{EntryData, EntryType};
use filesize_utility::get_entries::EntryVec;
use filesize_utility::order::{is_sorted, stands_before, Order, SortKey};
use filesize_utility::parse_args::{SearchSettings, SortMode};
use filesize_utility::path::DirPath;
use filesize_utility::size::Size;
use filesize_utility::sort::{reversed, sort_entries};

fn entry(name: &str, typ: EntryType, size: Size) -> EntryData {
    EntryData { name: name.as_bytes().to_vec(), typ, size }
}

fn file(name: &str) -> EntryData {
    entry(name, EntryType::File, Size::Unknown)
}

fn sized(name: &str, size: Size) -> EntryData {
    entry(name, EntryType::File, size)
}

fn listing(entries: Vec<EntryData>) -> EntryVec {
    EntryVec { path: DirPath::new(".".to_string()), entries }
}

fn settings(mode: SortMode, reverse: bool) -> SearchSettings {
    let mut s = SearchSettings::new(DirPath::new(".".to_string()));
    s.sort_mode = mode;
    s.reverse_sort = reverse;
    s
}

fn names(l: &EntryVec) -> Vec<String> {
    l.entries.iter().map(|e| String::from_utf8(e.name.clone()).unwrap()).collect()
}

#[test]
fn without_criterion_the_order_is_as_read() {
    let read = vec![file("m"), file("a"), file("z"), file("b")];
    for mode in [SortMode::Unsorted, SortMode::Size] {
        let mut l = listing(read.clone());
        l.pre_sort(&settings(mode, false));
        assert_eq!(read, l.entries);
    }
    let mut l = listing(read.clone());
    assert!(!l.post_sort(&settings(SortMode::Unsorted, false)));
    assert_eq!(read, l.entries);
}

#[test]
fn without_criterion_reversal_gives_the_exact_reverse() {
    let read = vec![file("m"), file("a"), file("z"), file("b")];
    let mut l = listing(read.clone());
    let s = settings(SortMode::Unsorted, true);
    l.pre_sort(&s);
    assert!(!l.post_sort(&s));
    assert_eq!(vec!["b", "z", "a", "m"], names(&l));
}

#[test]
fn by_name_is_dictionary_order_of_bytes() {
    let mut l = listing(vec![file("b"), file("a"), file("B"), file("ab"), file(""), file("a")]);
    let s = settings(SortMode::Lex, false);
    l.pre_sort(&s);
    assert_eq!(vec!["", "B", "a", "a", "ab", "b"], names(&l));
    assert!(!l.post_sort(&s));
    assert_eq!(vec!["", "B", "a", "a", "ab", "b"], names(&l));
    for pair in l.entries.windows(2) {
        assert!(pair[0].name <= pair[1].name);
    }
}

#[test]
fn by_name_reversed_turns_the_sorted_listing_round() {
    let mut l = listing(vec![file("b"), file("a"), file("c"), file("ab")]);
    l.pre_sort(&settings(SortMode::Lex, true));
    assert_eq!(vec!["c", "b", "ab", "a"], names(&l));
    for pair in l.entries.windows(2) {
        assert!(pair[0].name >= pair[1].name);
    }
}

#[test]
fn by_name_keeps_ties_as_read() {
    let read = vec![
        entry("same", EntryType::File, Size::Known(1)),
        entry("other", EntryType::Dir, Size::Known(2)),
        entry("same", EntryType::Dir, Size::Known(3)),
        entry("same", EntryType::Symlink, Size::Known(4)),
    ];
    let mut l = listing(read.clone());
    l.pre_sort(&settings(SortMode::Lex, false));
    assert_eq!(vec![read[1].clone(), read[0].clone(), read[2].clone(), read[3].clone()], l.entries);
    let mut l = listing(read.clone());
    l.pre_sort(&settings(SortMode::Lex, true));
    assert_eq!(vec![read[3].clone(), read[2].clone(), read[0].clone(), read[1].clone()], l.entries);
}

#[test]
fn folded_names_are_in_order_where_case_does_not_interfere() {
    let mut l = listing(vec![file("delta"), file("Alpha"), file("Beta"), file("gamma")]);
    l.pre_sort(&settings(SortMode::Lex, false));
    assert_eq!(vec!["Alpha", "Beta", "delta", "gamma"], names(&l));
    for pair in l.entries.windows(2) {
        assert!(pair[0].name.to_ascii_lowercase() <= pair[1].name.to_ascii_lowercase());
    }
}

#[test]
fn by_size_puts_the_largest_first_and_unknown_last() {
    let mut l = listing(vec![
        sized("small", Size::Known(10)),
        sized("lost", Size::Unknown),
        sized("big", Size::Known(1_000_000)),
        sized("gone", Size::Unknown),
        sized("mid", Size::Known(500)),
    ]);
    let s = settings(SortMode::Size, false);
    l.pre_sort(&s);
    assert!(l.post_sort(&s));
    assert_eq!(vec!["big", "mid", "small", "lost", "gone"], names(&l));
}

#[test]
fn by_size_reversed_puts_unknown_first_and_the_smallest_next() {
    let mut l = listing(vec![
        sized("small", Size::Known(10)),
        sized("lost", Size::Unknown),
        sized("big", Size::Known(1_000_000)),
        sized("gone", Size::Unknown),
        sized("mid", Size::Known(500)),
    ]);
    let s = settings(SortMode::Size, true);
    assert!(l.post_sort(&s));
    assert_eq!(vec!["lost", "gone", "small", "mid", "big"], names(&l));
}

#[test]
fn by_size_keeps_ties_as_the_first_pass_left_them() {
    let read = vec![
        sized("a", Size::Known(5)),
        sized("b", Size::Known(9)),
        sized("c", Size::Known(5)),
        sized("d", Size::Known(5)),
        sized("e", Size::Known(9)),
    ];
    let mut l = listing(read.clone());
    let s = settings(SortMode::Size, false);
    l.pre_sort(&s);
    assert!(l.post_sort(&s));
    assert_eq!(vec!["b", "e", "a", "c", "d"], names(&l));

    let mut l = listing(read);
    let s = settings(SortMode::Size, true);
    l.pre_sort(&s);
    assert_eq!(vec!["e", "d", "c", "b", "a"], names(&l));
    assert!(l.post_sort(&s));
    assert_eq!(vec!["d", "c", "a", "e", "b"], names(&l));
}

#[test]
fn post_sort_reports_a_redraw_when_an_entry_moved() {
    let unordered = vec![sized("a", Size::Known(1)), sized("b", Size::Known(2))];
    let mut l = listing(unordered.clone());
    assert!(l.post_sort(&settings(SortMode::Size, false)));
    assert_eq!(vec!["b", "a"], names(&l));
    let mut l = listing(vec![sized("b", Size::Known(2)), sized("a", Size::Known(1))]);
    assert!(l.post_sort(&settings(SortMode::Size, true)));
    assert_eq!(vec!["a", "b"], names(&l));
    let mut l = listing(vec![sized("u", Size::Unknown), sized("k", Size::Known(0))]);
    assert!(l.post_sort(&settings(SortMode::Size, false)));
    assert_eq!(vec!["k", "u"], names(&l));
}

#[test]
fn post_sort_reports_no_redraw_when_nothing_moved() {
    for reverse in [false, true] {
        assert!(!listing(vec![]).post_sort(&settings(SortMode::Size, reverse)));
        assert!(!listing(vec![file("a")]).post_sort(&settings(SortMode::Size, reverse)));
        assert!(!listing(vec![file("a")]).post_sort(&settings(SortMode::Lex, reverse)));
        assert!(!listing(vec![file("a")]).post_sort(&settings(SortMode::Unsorted, reverse)));
        let ties = vec![sized("x", Size::Known(4)), sized("y", Size::Known(4)), sized("z", Size::Known(4))];
        let mut l = listing(ties.clone());
        assert!(!l.post_sort(&settings(SortMode::Size, reverse)));
        assert_eq!(ties, l.entries);
    }
    let down = vec![sized("c", Size::Known(9)), sized("b", Size::Known(5)), sized("a", Size::Unknown)];
    let mut l = listing(down.clone());
    assert!(!l.post_sort(&settings(SortMode::Size, false)));
    assert_eq!(down, l.entries);
    let up = vec![sized("a", Size::Unknown), sized("b", Size::Known(5)), sized("c", Size::Known(9))];
    let mut l = listing(up.clone());
    assert!(!l.post_sort(&settings(SortMode::Size, true)));
    assert_eq!(up, l.entries);
    let out_of_order = vec![sized("a", Size::Known(1)), sized("b", Size::Known(2))];
    for mode in [SortMode::Lex, SortMode::Unsorted] {
        let mut l = listing(out_of_order.clone());
        assert!(!l.post_sort(&settings(mode, false)));
    }
}

#[test]
fn post_sort_in_other_modes_changes_nothing() {
    let read = vec![sized("a", Size::Known(1)), sized("b", Size::Known(2)), sized("c", Size::Unknown)];
    for mode in [SortMode::Lex, SortMode::Unsorted] {
        for reverse in [false, true] {
            let mut l = listing(read.clone());
            l.post_sort(&settings(mode, reverse));
            assert_eq!(read, l.entries);
        }
    }
}

#[test]
fn sorting_keeps_every_entry() {
    let mut read = Vec::new();
    let mut seed: u64 = 12345;
    for i in 0..200 {
        seed = seed.wrapping_mul(6364136223846793005).wrapping_add(1442695040888963407);
        let size = if seed % 7 == 0 { Size::Unknown } else { Size::Known((seed >> 33) % 50) };
        read.push(sized(&format!("n{}", (seed >> 40) % 60), size).clone());
        read[i].typ = if i % 2 == 0 { EntryType::Dir } else { EntryType::File };
    }
    for key in [SortKey::Name, SortKey::Size] {
        for descending in [false, true] {
            let order = Order { key, descending };
            let mut sorted = read.clone();
            sort_entries(&mut sorted, order);
            assert_eq!(read.len(), sorted.len());
            for pair in sorted.windows(2) {
                assert!(stands_before(order, &pair[0], &pair[1]));
            }
            let mut expected = read.clone();
            expected.sort_by(|a, b| {
                let o = match key {
                    SortKey::Name => a.name.cmp(&b.name),
                    SortKey::Size => a.size.cmp(&b.size),
                };
                if descending { o.reverse() } else { o }
            });
            assert_eq!(expected, sorted);
        }
    }
}

#[test]
fn a_listing_is_sorted_when_each_entry_may_stand_before_the_next() {
    let up = Order { key: SortKey::Size, descending: false };
    let down = Order { key: SortKey::Size, descending: true };
    let l = vec![sized("a", Size::Unknown), sized("b", Size::Known(1)), sized("c", Size::Known(1))];
    assert!(is_sorted(&l, up));
    assert!(!is_sorted(&l, down));
    assert!(is_sorted(&vec![], up));
    assert!(is_sorted(&vec![file("x")], down));
    let l = vec![sized("a", Size::Known(3)), sized("b", Size::Known(1)), sized("c", Size::Known(2))];
    assert!(!is_sorted(&l, up));
    assert!(!is_sorted(&l, down));
    let by_name = Order { key: SortKey::Name, descending: false };
    assert!(is_sorted(&vec![file("a"), file("a"), file("b")], by_name));
    assert!(!is_sorted(&vec![file("b"), file("a")], by_name));
}

#[test]
fn sorting_nothing_and_one() {
    let order = Order { key: SortKey::Name, descending: false };
    let mut none: Vec<EntryData> = vec![];
    sort_entries(&mut none, order);
    assert!(none.is_empty());
    let mut one = vec![file("x")];
    sort_entries(&mut one, order);
    assert_eq!(vec![file("x")], one);
}

#[test]
fn reversed_turns_a_vector_round() {
    assert_eq!(vec![file("c"), file("b"), file("a")], reversed(vec![file("a"), file("b"), file("c")]));
    assert_eq!(Vec::<EntryData>::new(), reversed(Vec::<EntryData>::new()));
    assert_eq!(vec![3, 2, 1], reversed(vec![1, 2, 3]));
}

#[test]
fn non_utf8_names_sort_by_their_bytes() {
    let raw = |bytes: &[u8]| EntryData { name: bytes.to_vec(), typ: EntryType::File, size: Size::Unknown };
    let mut l = listing(vec![raw(&[0xff]), raw(&[0x61, 0xfe]), raw(&[0x61]), raw(&[0x80, 0x00])]);
    l.pre_sort(&settings(SortMode::Lex, false));
    let got: Vec<Vec<u8>> = l.entries.iter().map(|e| e.name.clone()).collect();
    assert_eq!(vec![vec![0x61], vec![0x61, 0xfe], vec![0x80, 0x00], vec![0xff]], got);
}
