//! Short, stable, collision-resistant identifiers for a changing set of
//! file paths.
//!
//! Every path gets a fixed-length *fingerprint*: an FNV-1a hash of the
//! path's bytes, rendered as twelve symbols of a caller-supplied alphabet.
//! A *display id* is the shortest fingerprint prefix that no other distinct
//! path in the current set shares, so the user types two or three characters
//! instead of a whole path. Typed identifiers resolve against the full
//! fingerprint, never the display id, so a memorized prefix keeps working
//! after new files force the display id to grow. A separate generator hands
//! out ephemeral, positionally assigned keys for one-shot interactive
//! selection, together with the state machine that narrows a selection one
//! keystroke at a time.

mod commands;
mod config;
mod display;
mod git_status;
mod ids;
mod interactive;
mod text;

pub use commands::FileAction;
pub use commands::commit_message;
pub use commands::diff_args;
pub use commands::is_file_id;
pub use commands::joined;
pub use commands::parse_action;
pub use commands::staged_diff_args;
pub use config::Config;
pub use config::dedup_chars;
pub use config::default_editor;
pub use config::default_id_chars;
pub use config::effective_id_chars;
pub use config::lemma_dedup_distinct;
pub use config::lemma_default_id_chars_ok;
pub use display::drop_escapes;
pub use display::is_change_line;
pub use display::is_change_line_spec;
pub use display::remove_all;
pub use display::should_show_inline_diff;
pub use display::strip_color_codes;
pub use display::strip_color_spec;
pub use display::total_changes;
pub use git_status::DiffStats;
pub use git_status::FileEntry;
pub use git_status::FileType;
pub use git_status::GitFile;
pub use git_status::IdMatch;
pub use git_status::ResolveResult;
pub use git_status::StableId;
pub use git_status::StatusLine;
pub use git_status::all_digits;
pub use git_status::build_git_files;
pub use git_status::dec_val;
pub use git_status::entries_of_type;
pub use git_status::entry_paths;
pub use git_status::file_matches;
pub use git_status::files_of_type;
pub use git_status::find_file_by_id;
pub use git_status::get_first_actionable_file;
pub use git_status::grouped_entries;
pub use git_status::ids_attached;
pub use git_status::insert_by_mtime;
pub use git_status::is_actionable;
pub use git_status::lemma_resolution_monotonic;
pub use git_status::lemma_sort_by_mtime_ensures;
pub use git_status::match_count;
pub use git_status::next_tab;
pub use git_status::parse_count;
pub use git_status::parse_count_spec;
pub use git_status::parse_numstat_line;
pub use git_status::parse_status_line;
pub use git_status::resolve_file;
pub use git_status::sort_by_mtime;
pub use git_status::sort_files_by_mtime;
pub use git_status::trim_quotes;
pub use ids::FINGERPRINT_LEN;
pub use ids::collides_at;
pub use ids::display_len;
pub use ids::fingerprint_spec;
pub use ids::fnv1a_hash;
pub use ids::fnv1a_spec;
pub use ids::generate_ids;
pub use ids::hash_to_id_chars;
pub use ids::lemma_display_id_minimal;
pub use ids::lemma_display_len_from_bounds;
pub use ids::lemma_fingerprint_deterministic;
pub use ids::lemma_fingerprint_fixed_length;
pub use ids::path_fingerprint;
pub use interactive::NarrowEvent;
pub use interactive::NarrowModel;
pub use interactive::NarrowState;
pub use interactive::alphabet_distinct;
pub use interactive::first_key_index;
pub use interactive::generate_keys;
pub use interactive::key_chars;
pub use interactive::key_len;
pub use interactive::keys_view;
pub use interactive::lemma_generated_keys_select;
pub use interactive::lemma_key_bijection;
pub use interactive::lemma_key_chars_in_alphabet;
pub use interactive::lemma_key_chars_len;
pub use interactive::lemma_key_len_minimal;
pub use interactive::lemma_keys_distinct;
pub use interactive::lemma_narrowing_selects;
pub use interactive::narrow_key_model;
pub use interactive::narrow_step;
pub use interactive::narrow_step_model;
pub use interactive::run_narrow;
pub use interactive::some_key_has_prefix;
pub use text::chars_to_string;
pub use text::contains_char;
pub use text::is_prefix_of;
pub use text::str_chars;
pub use text::str_eq;
pub use text::str_starts_with;
