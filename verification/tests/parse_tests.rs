use fid::Config;
use fid::DiffStats;
use fid::FileAction;
use fid::FileEntry;
use fid::FileType;
use fid::GitFile;
use fid::StableId;
use fid::build_git_files;
use fid::commit_message;
use fid::diff_args;
use fid::is_change_line;
use fid::is_file_id;
use fid::parse_action;
use fid::parse_count;
use fid::parse_numstat_line;
use fid::parse_status_line;
use fid::should_show_inline_diff;
use fid::sort_files_by_mtime;
use fid::staged_diff_args;
use fid::strip_color_codes;

fn entry(rel_path: &str, file_type: FileType, mtime: u64) -> FileEntry {
    FileEntry {
        mtime,
        rel_path: rel_path.to_string(),
        abs_path: format!("/repo/{}", rel_path),
        file_type,
        diff_stats: None,
    }
}

#[test]
fn status_line_unstaged_modification() {
    let sl = parse_status_line(" M src/main.rs").expect("a parsed line");
    assert!(!sl.untracked);
    assert!(!sl.staged);
    assert!(sl.unstaged);
    assert_eq!(sl.path, "src/main.rs");
}

#[test]
fn status_line_staged_and_unstaged() {
    let sl = parse_status_line("MM src/lib.rs").expect("a parsed line");
    assert!(!sl.untracked);
    assert!(sl.staged);
    assert!(sl.unstaged);
    assert_eq!(sl.path, "src/lib.rs");
}

#[test]
fn status_line_untracked() {
    let sl = parse_status_line("?? notes.txt").expect("a parsed line");
    assert!(sl.untracked);
    assert!(!sl.staged);
    assert!(!sl.unstaged);
    assert_eq!(sl.path, "notes.txt");
}

#[test]
fn status_line_staged_only() {
    let sl = parse_status_line("A  new.rs").expect("a parsed line");
    assert!(sl.staged);
    assert!(!sl.unstaged);
    assert!(!sl.untracked);
    assert_eq!(sl.path, "new.rs");
}

#[test]
fn status_line_strips_quotes() {
    let sl = parse_status_line("?? \"with space.txt\"").expect("a parsed line");
    assert_eq!(sl.path, "with space.txt");
}

#[test]
fn status_line_too_short_is_skipped() {
    assert!(parse_status_line("").is_none());
    assert!(parse_status_line("M ").is_none());
}

#[test]
fn numstat_line_with_counts() {
    let (path, stats) = parse_numstat_line("3\t1\tsrc/main.rs").expect("a parsed record");
    assert_eq!(path, "src/main.rs");
    assert_eq!(stats.added, 3);
    assert_eq!(stats.removed, 1);
}

#[test]
fn numstat_line_binary_file_counts_zero() {
    let (path, stats) = parse_numstat_line("-\t-\tlogo.png").expect("a parsed record");
    assert_eq!(path, "logo.png");
    assert_eq!(stats.added, 0);
    assert_eq!(stats.removed, 0);
}

#[test]
fn numstat_line_too_few_fields() {
    assert!(parse_numstat_line("12").is_none());
    assert!(parse_numstat_line("12\t7").is_none());
    assert!(parse_numstat_line("").is_none());
}

#[test]
fn count_parsing_edges() {
    assert_eq!(parse_count("0"), 0);
    assert_eq!(parse_count("418"), 418);
    assert_eq!(parse_count("4294967295"), u32::MAX);
    assert_eq!(parse_count("4294967296"), 0); // too large for a count
    assert_eq!(parse_count("12a"), 0);
    assert_eq!(parse_count(""), 0);
    assert_eq!(parse_count("999999999999999999999"), 0);
}

#[test]
fn action_words_short_and_long() {
    assert_eq!(parse_action("a"), Some(FileAction::Add));
    assert_eq!(parse_action("add"), Some(FileAction::Add));
    assert_eq!(parse_action("d"), Some(FileAction::Diff));
    assert_eq!(parse_action("diff"), Some(FileAction::Diff));
    assert_eq!(parse_action("sd"), Some(FileAction::StagedDiff));
    assert_eq!(parse_action("staged-diff"), Some(FileAction::StagedDiff));
    assert_eq!(parse_action("e"), Some(FileAction::Edit));
    assert_eq!(parse_action("v"), Some(FileAction::Edit));
    assert_eq!(parse_action("edit"), Some(FileAction::Edit));
    assert_eq!(parse_action("push"), None);
    assert_eq!(parse_action(""), None);
}

#[test]
fn commit_message_joins_words() {
    assert!(commit_message(&vec![]).is_none());
    let m = commit_message(&vec!["fix".to_string()]).expect("a message");
    assert_eq!(m, "fix");
    let m = commit_message(&vec!["fix".to_string(), "the".to_string(), "bug".to_string()])
        .expect("a message");
    assert_eq!(m, "fix the bug");
}

#[test]
fn file_id_shape() {
    let config = Config::default();
    assert!(is_file_id("df", &config));
    assert!(is_file_id("a", &config));
    assert!(!is_file_id("", &config));
    assert!(!is_file_id("dx", &config));
    assert!(!is_file_id("q", &config));
}

#[test]
fn color_codes_are_stripped() {
    assert_eq!(strip_color_codes("\u{1b}[32m+green\u{1b}[0m"), "+green");
    assert_eq!(strip_color_codes("\u{1b}[31m-red\u{1b}[m"), "-red");
    assert_eq!(strip_color_codes("\u{1b}[1m+++ b/a.rs\u{1b}[0m"), "+++ b/a.rs");
    assert_eq!(strip_color_codes("plain"), "plain");
    assert_eq!(strip_color_codes(""), "");
}

#[test]
fn change_lines_inline() {
    assert!(is_change_line("+added line"));
    assert!(is_change_line("-removed line"));
    assert!(is_change_line("+"));
    assert!(is_change_line("++"));
    assert!(!is_change_line("+++ b/src/main.rs"));
    assert!(!is_change_line("--- a/src/main.rs"));
    assert!(!is_change_line(" context"));
    assert!(!is_change_line(""));
}

#[test]
fn inline_diff_shown_for_small_actionable_changes() {
    let small = GitFile {
        mtime: 0,
        rel_path: "a.rs".to_string(),
        abs_path: "a.rs".to_string(),
        file_type: FileType::Unstaged,
        stable_id: StableId { display: "d".to_string(), full_hash: "dddddddddddd".to_string() },
        diff_stats: Some(DiffStats { added: 2, removed: 3 }),
    };
    assert!(should_show_inline_diff(&small));
    let mut big = small.clone();
    big.diff_stats = Some(DiffStats { added: 5, removed: 2 });
    assert!(!should_show_inline_diff(&big));
    let mut untouched = small.clone();
    untouched.diff_stats = Some(DiffStats { added: 0, removed: 0 });
    assert!(!should_show_inline_diff(&untouched));
    let mut staged = small.clone();
    staged.file_type = FileType::Staged;
    assert!(!should_show_inline_diff(&staged));
}

#[test]
fn diff_arguments_depend_on_tracking() {
    let mut file = GitFile {
        mtime: 0,
        rel_path: "a.rs".to_string(),
        abs_path: "/repo/a.rs".to_string(),
        file_type: FileType::Untracked,
        stable_id: StableId { display: "d".to_string(), full_hash: "dddddddddddd".to_string() },
        diff_stats: None,
    };
    assert_eq!(diff_args(&file), vec!["diff", "--no-index", "/dev/null", "/repo/a.rs"]);
    file.file_type = FileType::Unstaged;
    assert_eq!(diff_args(&file), vec!["diff", "/repo/a.rs"]);
    assert_eq!(staged_diff_args(&file), vec!["diff", "--staged", "/repo/a.rs"]);
}

#[test]
fn built_list_groups_categories_and_sorts_by_mtime() {
    let alphabet: Vec<char> = "dfghklsa".chars().collect();
    let entries = vec![
        entry("staged.rs", FileType::Staged, 5),
        entry("late.rs", FileType::Unstaged, 9),
        entry("early.rs", FileType::Unstaged, 1),
        entry("notes.txt", FileType::Untracked, 4),
    ];
    let files = build_git_files(&entries, &alphabet);
    let names: Vec<&str> = files.iter().map(|f| f.rel_path.as_str()).collect();
    assert_eq!(names, vec!["early.rs", "late.rs", "notes.txt", "staged.rs"]);
    for f in &files {
        assert_eq!(f.stable_id.full_hash.len(), 12);
        assert!(f.stable_id.full_hash.starts_with(f.stable_id.display.as_str()));
        assert!(!f.stable_id.display.is_empty());
    }
}

#[test]
fn sort_by_mtime_is_stable() {
    let make = |name: &str, mtime: u64| GitFile {
        mtime,
        rel_path: name.to_string(),
        abs_path: name.to_string(),
        file_type: FileType::Unstaged,
        stable_id: StableId { display: "d".to_string(), full_hash: "dddddddddddd".to_string() },
        diff_stats: None,
    };
    let files = vec![make("b", 2), make("a", 1), make("c", 2), make("d", 1)];
    let sorted = sort_files_by_mtime(&files);
    let names: Vec<&str> = sorted.iter().map(|f| f.rel_path.as_str()).collect();
    assert_eq!(names, vec!["a", "d", "b", "c"]);
}

#[test]
fn built_list_keeps_duplicate_paths_per_category() {
    // The same path staged and unstaged appears once in each group.
    let alphabet: Vec<char> = "dfghklsa".chars().collect();
    let entries = vec![
        entry("both.rs", FileType::Staged, 3),
        entry("both.rs", FileType::Unstaged, 3),
    ];
    let files = build_git_files(&entries, &alphabet);
    assert_eq!(files.len(), 2);
    assert_eq!(files[0].file_type, FileType::Unstaged);
    assert_eq!(files[1].file_type, FileType::Staged);
    assert_eq!(files[0].stable_id.full_hash, files[1].stable_id.full_hash);
    // Occurrences of one identical path never collide with each other.
    assert_eq!(files[0].stable_id.display.len(), 1);
}
