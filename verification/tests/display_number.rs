use filesize_utility::display_number::{char_to_num, num_to_char, INVALID_DIGIT};

#[test]
fn display_number_test() {
    for x in 0..=61 {
        assert_eq!(Some(x), char_to_num(num_to_char(x)))
    }
    assert_eq!(char::REPLACEMENT_CHARACTER, num_to_char(1084));
    assert_eq!(None, char_to_num(char::REPLACEMENT_CHARACTER));
    assert_eq!(None, char_to_num('?'));
}

#[test]
fn digits_at_the_edges_of_each_range() {
    assert_eq!('0', num_to_char(0));
    assert_eq!('9', num_to_char(9));
    assert_eq!('a', num_to_char(10));
    assert_eq!('z', num_to_char(35));
    assert_eq!('A', num_to_char(36));
    assert_eq!('Z', num_to_char(61));
}

#[test]
fn numbers_above_61_have_no_digit() {
    assert_eq!(INVALID_DIGIT, num_to_char(62));
    assert_eq!(INVALID_DIGIT, num_to_char(usize::MAX));
    assert_eq!('\u{FFFD}', INVALID_DIGIT);
}

#[test]
fn values_at_the_edges_of_each_range() {
    assert_eq!(Some(0), char_to_num('0'));
    assert_eq!(Some(9), char_to_num('9'));
    assert_eq!(Some(10), char_to_num('a'));
    assert_eq!(Some(35), char_to_num('z'));
    assert_eq!(Some(36), char_to_num('A'));
    assert_eq!(Some(61), char_to_num('Z'));
}

#[test]
fn characters_next_to_the_ranges_are_no_digits() {
    for c in ['/', ':', '@', '[', '`', '{', ' ', '-', '\0', 'é', '٣'] {
        assert_eq!(None, char_to_num(c));
    }
}

#[test]
fn every_digit_is_the_digit_of_its_value() {
    for c in ('0'..='9').chain('a'..='z').chain('A'..='Z') {
        let n = char_to_num(c).unwrap();
        assert!(n <= 61);
        assert_eq!(c, num_to_char(n));
    }
}

#[test]
fn upper_and_lower_case_digits_differ() {
    assert_eq!(Some(11), char_to_num('b'));
    assert_eq!(Some(37), char_to_num('B'));
}
