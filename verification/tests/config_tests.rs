use fid::Config;

#[test]
fn test_default_config() {
    let config = Config::default();
    assert_eq!(config.editor, "vim");
    assert_eq!(config.id_chars, "dfghklsa");
}

#[test]
fn test_id_chars_valid() {
    let config = Config { editor: "vim".to_string(), id_chars: "abc".to_string() };
    assert_eq!(config.id_chars(), vec!['a', 'b', 'c']);
}

#[test]
fn test_id_chars_too_short_uses_default() {
    let config = Config { editor: "vim".to_string(), id_chars: "a".to_string() };
    assert_eq!(config.id_chars(), "dfghklsa".chars().collect::<Vec<_>>());
}

#[test]
fn id_chars_empty_uses_default() {
    let config = Config { editor: "vim".to_string(), id_chars: String::new() };
    assert_eq!(config.id_chars(), "dfghklsa".chars().collect::<Vec<_>>());
}

#[test]
fn id_chars_exactly_two_kept() {
    let config = Config { editor: "vim".to_string(), id_chars: "xy".to_string() };
    assert_eq!(config.id_chars(), vec!['x', 'y']);
}

#[test]
fn id_chars_all_duplicates_use_default() {
    // Two characters, but only one distinct: the default substitutes.
    let config = Config { editor: "vim".to_string(), id_chars: "aa".to_string() };
    assert_eq!(config.id_chars(), "dfghklsa".chars().collect::<Vec<_>>());
}

#[test]
fn id_chars_duplicates_are_dropped() {
    let config = Config { editor: "vim".to_string(), id_chars: "aab".to_string() };
    assert_eq!(config.id_chars(), vec!['a', 'b']);
    let config = Config { editor: "vim".to_string(), id_chars: "abab".to_string() };
    assert_eq!(config.id_chars(), vec!['a', 'b']);
}
