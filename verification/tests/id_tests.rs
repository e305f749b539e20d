use fid::fnv1a_hash;
use fid::generate_ids;
use fid::hash_to_id_chars;

fn default_chars() -> Vec<char> {
    "dfghklsa".chars().collect()
}

#[test]
fn generate_ids_no_collision() {
    let paths = vec!["src/main.rs".to_string()];
    let ids = generate_ids(&paths, &default_chars());
    assert_eq!(ids.len(), 1);
    assert_eq!(ids[0].0.len(), 1); // minimal display length
    assert_eq!(ids[0].1.len(), 12); // full hash length
}

#[test]
fn generate_ids_with_collision_extends() {
    // When two distinct paths share a fingerprint prefix, displays extend
    // past it; either way both stay non-empty with full 12-symbol hashes.
    let paths = vec!["a".to_string(), "b".to_string()];
    let ids = generate_ids(&paths, &default_chars());
    assert!(!ids[0].0.is_empty());
    assert!(!ids[1].0.is_empty());
    assert_eq!(ids[0].1.len(), 12);
    assert_eq!(ids[1].1.len(), 12);
}

#[test]
fn fnv1a_matches_reference_values() {
    // The FNV-1a offset basis is the hash of the empty string.
    assert_eq!(fnv1a_hash(""), 0xcbf29ce484222325);
    assert_eq!(fnv1a_hash("a"), 0xaf63dc4c8601ec8c);
    assert_eq!(fnv1a_hash("src/main.rs"), 0xdf9f8d2d8eb12e9c);
}

#[test]
fn fingerprint_is_deterministic() {
    let alphabet = default_chars();
    let first = hash_to_id_chars("src/git.rs", &alphabet);
    let second = hash_to_id_chars("src/git.rs", &alphabet);
    assert_eq!(first, second);
}

#[test]
fn fingerprint_has_fixed_length() {
    let alphabet = default_chars();
    assert_eq!(hash_to_id_chars("", &alphabet).len(), 12);
    assert_eq!(hash_to_id_chars("x", &alphabet).len(), 12);
    assert_eq!(hash_to_id_chars("a/very/long/path/deep/in/the/tree.rs", &alphabet).len(), 12);
    let two = vec!['0', '1'];
    assert_eq!(hash_to_id_chars("anything", &two).len(), 12);
}

#[test]
fn fingerprint_exact_value() {
    let alphabet = default_chars();
    let fp: String = hash_to_id_chars("src/main.rs", &alphabet).into_iter().collect();
    assert_eq!(fp, "khgaggklsfss");
}

#[test]
fn display_is_prefix_of_full_hash() {
    let paths = vec![
        "src/main.rs".to_string(),
        "src/lib.rs".to_string(),
        "README.md".to_string(),
    ];
    let ids = generate_ids(&paths, &default_chars());
    for (display, full) in &ids {
        assert!(full.starts_with(display.as_str()));
        assert!(!display.is_empty());
        assert_eq!(full.len(), 12);
    }
}

#[test]
fn duplicate_paths_do_not_collide_with_each_other() {
    // The same path can appear once staged and once unstaged; the two
    // occurrences keep the short display computed against the others only.
    let paths = vec!["src/main.rs".to_string(), "src/main.rs".to_string()];
    let ids = generate_ids(&paths, &default_chars());
    assert_eq!(ids[0].0.len(), 1);
    assert_eq!(ids[1].0.len(), 1);
    assert_eq!(ids[0].1, ids[1].1);
}

#[test]
fn generate_ids_empty_input() {
    let paths: Vec<String> = vec![];
    let ids = generate_ids(&paths, &default_chars());
    assert!(ids.is_empty());
}

#[test]
fn display_cannot_be_shortened() {
    // Minimality: one symbol less than a display id always collides with
    // another distinct path's fingerprint prefix at that shorter length.
    let paths: Vec<String> = (0..40).map(|i| format!("file{}.rs", i)).collect();
    let alphabet = default_chars();
    let ids = generate_ids(&paths, &alphabet);
    for (i, (display, _)) in ids.iter().enumerate() {
        if display.len() > 1 {
            let shorter = &display[..display.len() - 1];
            let colliders = ids
                .iter()
                .enumerate()
                .filter(|(j, (_, full))| *j != i && paths[*j] != paths[i] && full.starts_with(shorter))
                .count();
            assert!(colliders > 0, "display id {} could be shortened", display);
        }
    }
}
