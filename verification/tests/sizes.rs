use filesize_utility::color::Color;
use filesize_utility::entry::{EntryData, EntryType, FileTypeFlags};
use filesize_utility::size::{Size, SizeUnit};
use fs_extra::error::{Error, ErrorKind};
use std::cmp::Ordering;

fn failed() -> Result<u64, Error> {
    Err(Error::new(ErrorKind::PermissionDenied, "no"))
}

#[test]
fn measured_size_is_known() {
    assert_eq!(Size::Known(0), Size::from(Ok(0)));
    assert_eq!(Size::Known(4096), Size::from(Ok(4096)));
    assert_eq!(Size::Known(u64::MAX), Size::from(Ok(u64::MAX)));
}

#[test]
fn failed_measurement_is_unknown() {
    assert_eq!(Size::Unknown, Size::from(failed()));
    let size: Size = failed().into();
    assert_eq!(Size::Unknown, size);
}

#[test]
fn units_change_strictly_above_each_power_of_1000() {
    assert_eq!(Some(SizeUnit::B), Size::Known(0).unit());
    assert_eq!(Some(SizeUnit::B), Size::Known(1_000).unit());
    assert_eq!(Some(SizeUnit::KB), Size::Known(1_001).unit());
    assert_eq!(Some(SizeUnit::KB), Size::Known(1_000_000).unit());
    assert_eq!(Some(SizeUnit::MB), Size::Known(1_000_001).unit());
    assert_eq!(Some(SizeUnit::MB), Size::Known(1_000_000_000).unit());
    assert_eq!(Some(SizeUnit::GB), Size::Known(1_000_000_001).unit());
    assert_eq!(Some(SizeUnit::GB), Size::Known(1_000_000_000_000).unit());
    assert_eq!(Some(SizeUnit::TB), Size::Known(1_000_000_000_001).unit());
    assert_eq!(Some(SizeUnit::TB), Size::Known(1_000_000_000_000_000).unit());
    assert_eq!(Some(SizeUnit::PB), Size::Known(1_000_000_000_000_001).unit());
    assert_eq!(Some(SizeUnit::PB), Size::Known(u64::MAX).unit());
    assert_eq!(None, Size::Unknown.unit());
}

#[test]
fn size_texts() {
    assert_eq!("unknown", Size::Unknown.to_string());
    assert_eq!("0 B", Size::Known(0).to_string());
    assert_eq!("512 B", Size::Known(512).to_string());
    assert_eq!("1000 B", Size::Known(1_000).to_string());
    assert_eq!("1.50 KB", Size::Known(1_500).to_string());
    assert_eq!("2.50 GB", Size::Known(2_500_000_000).to_string());
    assert_eq!("1.23 MB", Size::Known(1_234_567).to_string());
}

#[test]
fn size_colors_by_unit() {
    assert_eq!(Color::Blue, Size::Unknown.get_color());
    assert_eq!(Color::DarkGrey, Size::Known(0).get_color());
    assert_eq!(Color::DarkGrey, Size::Known(1_000).get_color());
    assert_eq!(Color::DarkGreen, Size::Known(1_001).get_color());
    assert_eq!(Color::DarkYellow, Size::Known(5_000_000).get_color());
    assert_eq!(Color::Blue, Size::Known(3_000_000_000_000).get_color());
    assert_eq!(Color::Blue, Size::Known(u64::MAX).get_color());
}

#[test]
fn gigabytes_are_graded() {
    assert_eq!(Color::DarkRed, Size::Known(1_000_000_001).get_color());
    assert_eq!(Color::DarkRed, Size::Known(9_999_999_999).get_color());
    assert_eq!(Color::Red, Size::Known(10_000_000_000).get_color());
    assert_eq!(Color::Red, Size::Known(24_999_999_999).get_color());
    assert_eq!(Color::Magenta, Size::Known(25_000_000_000).get_color());
    assert_eq!(Color::Magenta, Size::Known(1_000_000_000_000).get_color());
}

#[test]
fn unknown_is_below_every_known_size() {
    assert_eq!(Ordering::Equal, Size::Unknown.cmp(&Size::Unknown));
    assert_eq!(Ordering::Less, Size::Unknown.cmp(&Size::Known(0)));
    assert_eq!(Ordering::Greater, Size::Known(0).cmp(&Size::Unknown));
    assert_eq!(Ordering::Less, Size::Known(1).cmp(&Size::Known(2)));
    assert_eq!(Ordering::Greater, Size::Known(3).cmp(&Size::Known(2)));
    assert_eq!(Ordering::Equal, Size::Known(2).cmp(&Size::Known(2)));
}

#[test]
fn comparison_operators_follow_cmp() {
    assert!(Size::Unknown < Size::Known(0));
    assert!(Size::Known(0) > Size::Unknown);
    assert!(Size::Unknown <= Size::Unknown);
    assert!(Size::Known(5) <= Size::Known(5));
    assert!(Size::Known(5) < Size::Known(6));
    assert_eq!(Some(Ordering::Less), Size::Known(5).partial_cmp(&Size::Known(6)));
}

#[test]
fn kinds_from_reports() {
    let flags = |is_dir, is_file, is_symlink| Some(FileTypeFlags { is_dir, is_file, is_symlink });
    assert_eq!(EntryType::Dir, EntryType::from(flags(true, false, false)));
    assert_eq!(EntryType::File, EntryType::from(flags(false, true, false)));
    assert_eq!(EntryType::Symlink, EntryType::from(flags(false, false, true)));
    assert_eq!(EntryType::Unknown, EntryType::from(flags(false, false, false)));
    assert_eq!(EntryType::Unknown, EntryType::from(None));
    assert_eq!(EntryType::Dir, EntryType::from(flags(true, true, true)));
    assert_eq!(EntryType::File, EntryType::from(flags(false, true, true)));
}

#[test]
fn kind_colors_and_symbols() {
    assert_eq!(Color::DarkRed, EntryType::Unknown.get_color());
    assert_eq!(Color::White, EntryType::Dir.get_color());
    assert_eq!(Color::Green, EntryType::File.get_color());
    assert_eq!(Color::Blue, EntryType::Symlink.get_color());
    assert_eq!("?", EntryType::Unknown.to_string());
    assert_eq!("D", EntryType::Dir.to_string());
    assert_eq!("F", EntryType::File.to_string());
    assert_eq!("L", EntryType::Symlink.to_string());
    assert_eq!('D', EntryType::Dir.symbol());
    assert_eq!('?', EntryType::Unknown.symbol());
}

#[test]
fn only_directories_and_links_can_be_entered() {
    assert!(EntryType::Dir.can_explore());
    assert!(EntryType::Symlink.can_explore());
    assert!(!EntryType::File.can_explore());
    assert!(!EntryType::Unknown.can_explore());
}

#[test]
fn only_directories_and_files_are_measured() {
    let entry = |typ| EntryData { name: b"x".to_vec(), typ, size: Size::Unknown };
    for (typ, expected) in [
        (EntryType::Dir, Size::Known(7)),
        (EntryType::File, Size::Known(7)),
        (EntryType::Symlink, Size::Unknown),
        (EntryType::Unknown, Size::Unknown),
    ] {
        let mut e = entry(typ);
        e.resolve_size(Ok(7));
        assert_eq!(expected, e.size);
        assert_eq!(typ, e.typ);
        assert_eq!(b"x".to_vec(), e.name);
    }
}

#[test]
fn failed_measurement_leaves_the_entry_unknown() {
    let mut e = EntryData { name: b"d".to_vec(), typ: EntryType::Dir, size: Size::Known(3) };
    e.resolve_size(failed());
    assert_eq!(Size::Unknown, e.size);
}
