use filesize_utility::parse_args::{parse_args, SearchSettings, SortMode, USAGE};
use filesize_utility::path::DirPath;

fn line(words: &[&str]) -> Vec<String> {
    words.iter().map(|w| w.to_string()).collect()
}

#[test]
fn no_path_gives_nothing() {
    assert_eq!(None, parse_args(&line(&[])));
    assert_eq!(None, parse_args(&line(&["filesize-utility"])));
}

#[test]
fn path_alone_gives_the_defaults() {
    let settings = parse_args(&line(&["filesize-utility", "/tmp"])).unwrap();
    assert_eq!("/tmp", settings.path.root);
    assert!(settings.path.segments.is_empty());
    assert_eq!(SortMode::Size, settings.sort_mode);
    assert!(!settings.reverse_sort);
    assert!(!settings.explore);
}

#[test]
fn new_settings_are_the_defaults() {
    let settings = SearchSettings::new(DirPath::new("here".to_string()));
    assert_eq!("here", settings.path.root);
    assert_eq!(0, settings.path.depth());
    assert_eq!(SortMode::Size, settings.sort_mode);
    assert!(!settings.reverse_sort);
    assert!(!settings.explore);
}

#[test]
fn default_mode_is_size() {
    assert_eq!(SortMode::Size, SortMode::default());
}

#[test]
fn each_mode_option_in_both_spellings() {
    for (option, mode) in [
        ("-n", SortMode::Unsorted),
        ("--none", SortMode::Unsorted),
        ("-s", SortMode::Size),
        ("--size", SortMode::Size),
        ("-l", SortMode::Lex),
        ("--lex", SortMode::Lex),
    ] {
        let settings = parse_args(&line(&["x", ".", option])).unwrap();
        assert_eq!(mode, settings.sort_mode);
        assert!(!settings.reverse_sort);
        assert!(!settings.explore);
    }
}

#[test]
fn the_last_mode_option_wins() {
    let settings = parse_args(&line(&["x", ".", "-l", "-n", "--size", "--lex"])).unwrap();
    assert_eq!(SortMode::Lex, settings.sort_mode);
    let settings = parse_args(&line(&["x", ".", "-l", "-r", "-n"])).unwrap();
    assert_eq!(SortMode::Unsorted, settings.sort_mode);
    assert!(settings.reverse_sort);
}

#[test]
fn reverse_and_explore_flip_each_time() {
    let settings = parse_args(&line(&["x", ".", "-r"])).unwrap();
    assert!(settings.reverse_sort);
    let settings = parse_args(&line(&["x", ".", "-r", "--reverse"])).unwrap();
    assert!(!settings.reverse_sort);
    let settings = parse_args(&line(&["x", ".", "-r", "--reverse", "-r"])).unwrap();
    assert!(settings.reverse_sort);
    let settings = parse_args(&line(&["x", ".", "-e"])).unwrap();
    assert!(settings.explore);
    let settings = parse_args(&line(&["x", ".", "--explore", "-e"])).unwrap();
    assert!(!settings.explore);
}

#[test]
fn unknown_options_are_passed_over() {
    let settings = parse_args(&line(&["x", ".", "--what", "-R", "-E", "", "-lex"])).unwrap();
    assert_eq!(SortMode::Size, settings.sort_mode);
    assert!(!settings.reverse_sort);
    assert!(!settings.explore);
}

#[test]
fn usage_names_every_option() {
    for option in ["--none", "--size", "--lex", "--reverse", "--explore"] {
        assert!(USAGE.contains(option));
    }
}
