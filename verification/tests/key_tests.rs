use fid::NarrowEvent;
use fid::NarrowState;
use fid::generate_keys;
use fid::narrow_step;

fn default_chars() -> Vec<char> {
    "dfghklsa".chars().collect()
}

#[test]
fn generate_keys_zero_is_empty() {
    let keys = generate_keys(0, &default_chars());
    assert!(keys.is_empty());
}

#[test]
fn generate_keys_single_symbol_while_alphabet_suffices() {
    let keys = generate_keys(3, &default_chars());
    assert_eq!(keys, vec!["d".to_string(), "f".to_string(), "g".to_string()]);
    let keys = generate_keys(8, &default_chars());
    assert_eq!(keys.len(), 8);
    assert!(keys.iter().all(|k| k.len() == 1));
}

#[test]
fn generate_keys_extends_length_when_needed() {
    let keys = generate_keys(9, &default_chars());
    assert_eq!(keys.len(), 9);
    assert!(keys.iter().all(|k| k.len() == 2));
    assert_eq!(keys[0], "dd");
    assert_eq!(keys[1], "df");
    assert_eq!(keys[8], "fd");
    let keys = generate_keys(64, &default_chars());
    assert!(keys.iter().all(|k| k.len() == 2));
    let keys = generate_keys(65, &default_chars());
    assert!(keys.iter().all(|k| k.len() == 3));
}

#[test]
fn generate_keys_are_pairwise_distinct() {
    for n in [1usize, 2, 7, 8, 9, 20, 64, 65, 100] {
        let keys = generate_keys(n, &default_chars());
        assert_eq!(keys.len(), n);
        let len = keys[0].len();
        assert!(keys.iter().all(|k| k.len() == len));
        let mut seen = keys.clone();
        seen.sort();
        seen.dedup();
        assert_eq!(seen.len(), n, "keys must be pairwise distinct for n={}", n);
    }
}

#[test]
fn generate_keys_with_two_symbol_alphabet() {
    let alphabet = vec!['0', '1'];
    let keys = generate_keys(5, &alphabet);
    assert_eq!(keys, vec!["000", "001", "010", "011", "100"]);
}

#[test]
fn narrowing_selects_on_full_key() {
    let alphabet = default_chars();
    let files = 9usize;
    let keys = generate_keys(files, &alphabet);
    // Type the two characters of the last key, one keystroke at a time.
    let target = keys[8].clone();
    let mut state = NarrowState::Collecting(String::new());
    for c in target.chars() {
        state = narrow_step(state, &keys, &alphabet, NarrowEvent::Key(c));
    }
    match state {
        NarrowState::Selected(i) => assert_eq!(i, 8),
        _ => panic!("expected a selection"),
    }
}

#[test]
fn narrowing_keeps_collecting_on_live_prefix() {
    let alphabet = default_chars();
    let keys = generate_keys(9, &alphabet);
    let state = NarrowState::Collecting(String::new());
    let state = narrow_step(state, &keys, &alphabet, NarrowEvent::Key('d'));
    match state {
        NarrowState::Collecting(p) => assert_eq!(p, "d"),
        _ => panic!("expected to keep collecting"),
    }
}

#[test]
fn narrowing_resets_on_dead_prefix() {
    let alphabet = default_chars();
    // Three single-symbol keys: d, f, g. Typing any other alphabet
    // character is a dead end and resets the prefix instead of erroring.
    let keys = generate_keys(3, &alphabet);
    let state = NarrowState::Collecting(String::new());
    let state = narrow_step(state, &keys, &alphabet, NarrowEvent::Key('s'));
    match state {
        NarrowState::Collecting(p) => assert_eq!(p, ""),
        _ => panic!("expected a reset to empty collecting"),
    }
}

#[test]
fn narrowing_cancels_outside_alphabet() {
    let alphabet = default_chars();
    let keys = generate_keys(3, &alphabet);
    let state = NarrowState::Collecting(String::new());
    let state = narrow_step(state, &keys, &alphabet, NarrowEvent::Key('q'));
    assert!(matches!(state, NarrowState::Cancelled));
}

#[test]
fn narrowing_clear_resets_prefix() {
    let alphabet = default_chars();
    let keys = generate_keys(9, &alphabet);
    let state = NarrowState::Collecting(String::new());
    let state = narrow_step(state, &keys, &alphabet, NarrowEvent::Key('d'));
    let state = narrow_step(state, &keys, &alphabet, NarrowEvent::Clear);
    match state {
        NarrowState::Collecting(p) => assert_eq!(p, ""),
        _ => panic!("expected empty collecting after clear"),
    }
}

#[test]
fn narrowing_cancel_signal_cancels() {
    let alphabet = default_chars();
    let keys = generate_keys(2, &alphabet);
    let state = NarrowState::Collecting(String::new());
    let state = narrow_step(state, &keys, &alphabet, NarrowEvent::Cancel);
    assert!(matches!(state, NarrowState::Cancelled));
}

#[test]
fn narrowing_terminal_states_absorb_events() {
    let alphabet = default_chars();
    let keys = generate_keys(2, &alphabet);
    let state = narrow_step(NarrowState::Selected(1), &keys, &alphabet, NarrowEvent::Key('d'));
    assert!(matches!(state, NarrowState::Selected(1)));
    let state = narrow_step(NarrowState::Cancelled, &keys, &alphabet, NarrowEvent::Clear);
    assert!(matches!(state, NarrowState::Cancelled));
}

#[test]
fn narrowing_selects_every_key() {
    let alphabet = default_chars();
    let n = 20usize;
    let keys = generate_keys(n, &alphabet);
    for idx in 0..n {
        let mut state = NarrowState::Collecting(String::new());
        for c in keys[idx].chars() {
            state = narrow_step(state, &keys, &alphabet, NarrowEvent::Key(c));
        }
        match state {
            NarrowState::Selected(i) => assert_eq!(i, idx),
            _ => panic!("expected selection of key {}", idx),
        }
    }
}
