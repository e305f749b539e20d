use fid::DiffStats;
use fid::FileType;
use fid::GitFile;
use fid::IdMatch;
use fid::ResolveResult;
use fid::StableId;
use fid::find_file_by_id;
use fid::get_first_actionable_file;
use fid::resolve_file;

fn make_file(rel_path: &str, display: &str, full_hash: &str) -> GitFile {
    GitFile {
        mtime: 0,
        rel_path: rel_path.to_string(),
        abs_path: rel_path.to_string(),
        file_type: FileType::Unstaged,
        stable_id: StableId {
            display: display.to_string(),
            full_hash: full_hash.to_string(),
        },
        diff_stats: None,
    }
}

fn make_typed_file(rel_path: &str, file_type: FileType) -> GitFile {
    GitFile {
        mtime: 0,
        rel_path: rel_path.to_string(),
        abs_path: rel_path.to_string(),
        file_type,
        stable_id: StableId {
            display: "d".to_string(),
            full_hash: "dddddddddddd".to_string(),
        },
        diff_stats: Some(DiffStats { added: 1, removed: 0 }),
    }
}

#[test]
fn stable_id_matches_exact() {
    let id = StableId { display: "fk".to_string(), full_hash: "fkkabcdefghi".to_string() };
    assert!(id.matches("fkkabcdefghi"));
}

#[test]
fn stable_id_matches_prefix() {
    let id = StableId { display: "fk".to_string(), full_hash: "fkkabcdefghi".to_string() };
    assert!(id.matches("fk"));
    assert!(id.matches("fkk"));
    assert!(id.matches("fkka"));
}

#[test]
fn stable_id_no_match_wrong_prefix() {
    let id = StableId { display: "fk".to_string(), full_hash: "fkkabcdefghi".to_string() };
    assert!(!id.matches("fka"));
    assert!(!id.matches("gk"));
    assert!(!id.matches("fkkz"));
}

#[test]
fn find_file_unique_with_short_input() {
    let files = vec![make_file("src/main.rs", "fk", "fkkabcdefghi")];
    match find_file_by_id(&files, "fk") {
        IdMatch::Unique(f) => assert_eq!(f.rel_path, "src/main.rs"),
        _ => panic!("expected unique match"),
    }
}

#[test]
fn find_file_unique_with_longer_input() {
    let files = vec![make_file("src/main.rs", "fk", "fkkabcdefghi")];
    match find_file_by_id(&files, "fkk") {
        IdMatch::Unique(f) => assert_eq!(f.rel_path, "src/main.rs"),
        _ => panic!("expected unique match"),
    }
}

#[test]
fn find_file_ambiguous_short_prefix() {
    let files = vec![
        make_file("src/main.rs", "fkk", "fkkabcdefghi"),
        make_file("src/lib.rs", "fka", "fkaabcdefghi"),
    ];
    match find_file_by_id(&files, "fk") {
        IdMatch::Ambiguous(n) => assert_eq!(n, 2),
        _ => panic!("expected ambiguous match"),
    }
}

#[test]
fn find_file_disambiguate_with_longer_prefix() {
    let files = vec![
        make_file("src/main.rs", "fkk", "fkkabcdefghi"),
        make_file("src/lib.rs", "fka", "fkaabcdefghi"),
    ];
    match find_file_by_id(&files, "fkk") {
        IdMatch::Unique(f) => assert_eq!(f.rel_path, "src/main.rs"),
        _ => panic!("expected unique match for fkk"),
    }
    match find_file_by_id(&files, "fka") {
        IdMatch::Unique(f) => assert_eq!(f.rel_path, "src/lib.rs"),
        _ => panic!("expected unique match for fka"),
    }
}

#[test]
fn find_file_not_found() {
    let files = vec![make_file("src/main.rs", "fk", "fkkabcdefghi")];
    match find_file_by_id(&files, "gk") {
        IdMatch::NotFound => {}
        _ => panic!("expected not found"),
    }
}

#[test]
fn find_file_old_id_still_works_after_collision() {
    // A user memorized "fk" for file A (full hash fkkabcdefghi). Later,
    // file B arrives with full hash fkaabcdefghi; the display ids lengthen
    // to "fkk" and "fka", but the memorized longer prefix still works.
    let files = vec![
        make_file("src/main.rs", "fkk", "fkkabcdefghi"),
        make_file("src/lib.rs", "fka", "fkaabcdefghi"),
    ];
    match find_file_by_id(&files, "fkk") {
        IdMatch::Unique(f) => assert_eq!(f.rel_path, "src/main.rs"),
        _ => panic!("old ID should still work"),
    }
}

#[test]
fn resolve_after_collision_is_backward_compatible() {
    let files = vec![
        make_file("src/main.rs", "fkk", "fkkabcdefghi"),
        make_file("src/lib.rs", "fka", "fkaabcdefghi"),
    ];
    let fk = "fk".to_string();
    match resolve_file(&files, Some(&fk)) {
        ResolveResult::Ambiguous(n) => assert_eq!(n, 2),
        _ => panic!("expected ambiguity for fk"),
    }
    let fkk = "fkk".to_string();
    match resolve_file(&files, Some(&fkk)) {
        ResolveResult::Found(f) => assert_eq!(f.rel_path, "src/main.rs"),
        _ => panic!("expected unique match for fkk"),
    }
    let fka = "fka".to_string();
    match resolve_file(&files, Some(&fka)) {
        ResolveResult::Found(f) => assert_eq!(f.rel_path, "src/lib.rs"),
        _ => panic!("expected unique match for fka"),
    }
}

#[test]
fn resolve_counts_three_way_ambiguity() {
    let files = vec![
        make_file("a.rs", "zza", "zzaaaaaaaaaa"),
        make_file("b.rs", "zzb", "zzbbbbbbbbbb"),
        make_file("c.rs", "zzc", "zzcccccccccc"),
    ];
    let zz = "zz".to_string();
    match resolve_file(&files, Some(&zz)) {
        ResolveResult::Ambiguous(n) => assert_eq!(n, 3),
        _ => panic!("expected three-way ambiguity"),
    }
}

#[test]
fn resolve_reports_not_found() {
    let files = vec![
        make_file("a.rs", "zza", "zzaaaaaaaaaa"),
        make_file("b.rs", "zzb", "zzbbbbbbbbbb"),
    ];
    let qqq = "qqq".to_string();
    match resolve_file(&files, Some(&qqq)) {
        ResolveResult::NotFound => {}
        _ => panic!("expected not found"),
    }
}

#[test]
fn resolve_without_id_takes_first_actionable() {
    let files = vec![
        make_typed_file("staged.rs", FileType::Staged),
        make_typed_file("unstaged.rs", FileType::Unstaged),
        make_typed_file("untracked.rs", FileType::Untracked),
    ];
    match resolve_file(&files, None) {
        ResolveResult::Found(f) => assert_eq!(f.rel_path, "unstaged.rs"),
        _ => panic!("expected the first actionable file"),
    }
}

#[test]
fn first_actionable_skips_staged_only_lists() {
    let files = vec![make_typed_file("staged.rs", FileType::Staged)];
    assert!(get_first_actionable_file(&files).is_none());
    let files = vec![
        make_typed_file("one.rs", FileType::Staged),
        make_typed_file("two.rs", FileType::Untracked),
    ];
    let f = get_first_actionable_file(&files).expect("an actionable file");
    assert_eq!(f.rel_path, "two.rs");
}
