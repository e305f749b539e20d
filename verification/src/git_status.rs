//! File records, stable identifiers and prefix resolution.
//!
//! A file's stable id pairs the display prefix shown to the user with the
//! full fingerprint it abbreviates. Typed identifiers resolve against the
//! full fingerprint, so a memorized prefix keeps working after the display
//! prefix grows.

use crate::text::is_prefix_of;
use crate::text::str_starts_with;
use vstd::prelude::*;

verus! {

/// Category of a changed file in the working tree.
#[derive(Debug, Clone, Copy, PartialEq, Eq, Structural)]
pub enum FileType {
    Unstaged,
    Untracked,
    Staged,
}

/// The stable identity of a file: the display prefix currently shown to the
/// user, and the full fingerprint it abbreviates.
#[derive(Debug)]
pub struct StableId {
    pub display: String,
    pub full_hash: String,
}

impl Clone for StableId {
    /// An exact copy of both strings.
    fn clone(&self) -> (r: Self)
        ensures
            r == *self,
    {
        StableId { display: self.display.clone(), full_hash: self.full_hash.clone() }
    }
}

impl StableId {
    /// Does the typed input refer to this id? True exactly when the input is
    /// a prefix of the full fingerprint — never of the display prefix.
    pub fn matches(&self, input: &str) -> (r: bool)
        ensures
            r == is_prefix_of(input@, self.full_hash@),
    {
        str_starts_with(self.full_hash.as_str(), input)
    }
}

/// Added and removed line counts for one file.
#[derive(Debug, Clone, Copy)]
pub struct DiffStats {
    pub added: u32,
    pub removed: u32,
}

/// One changed file of the working tree, as shown to the user.
#[derive(Debug)]
pub struct GitFile {
    pub mtime: u64,
    pub rel_path: String,
    pub abs_path: String,
    pub file_type: FileType,
    pub stable_id: StableId,
    pub diff_stats: Option<DiffStats>,
}

impl Clone for GitFile {
    /// An exact copy of every field.
    fn clone(&self) -> (r: Self)
        ensures
            r == *self,
    {
        GitFile {
            mtime: self.mtime,
            rel_path: self.rel_path.clone(),
            abs_path: self.abs_path.clone(),
            file_type: self.file_type,
            stable_id: self.stable_id.clone(),
            diff_stats: self.diff_stats,
        }
    }
}

/// The file's full fingerprint starts with the typed input.
pub open spec fn file_matches(f: GitFile, input: Seq<char>) -> bool {
    is_prefix_of(input, f.stable_id.full_hash@)
}

/// How many files of the list the typed input matches.
pub open spec fn match_count(files: Seq<GitFile>, input: Seq<char>) -> nat
    decreases files.len(),
{
    if files.len() == 0 {
        0
    } else {
        match_count(files.drop_last(), input) + if file_matches(files.last(), input) {
            1nat
        } else {
            0nat
        }
    }
}

proof fn lemma_match_count_zero(files: Seq<GitFile>, input: Seq<char>)
    requires
        forall|j: int| 0 <= j < files.len() ==> !file_matches(#[trigger] files[j], input),
    ensures
        match_count(files, input) == 0,
    decreases files.len(),
{
    if files.len() > 0 {
        lemma_match_count_zero(files.drop_last(), input);
    }
}

proof fn lemma_match_count_one(files: Seq<GitFile>, input: Seq<char>, i: int)
    requires
        0 <= i < files.len(),
        file_matches(files[i], input),
        forall|j: int| 0 <= j < files.len() && j != i ==> !file_matches(#[trigger] files[j], input),
    ensures
        match_count(files, input) == 1,
    decreases files.len(),
{
    if i == files.len() - 1 {
        lemma_match_count_zero(files.drop_last(), input);
    } else {
        lemma_match_count_one(files.drop_last(), input, i);
    }
}

/// Resolution monotonicity: any prefix of a file's full fingerprint that no
/// other file's fingerprint starts with matches exactly that one file, so
/// resolving it gives the unique verdict — even when the prefix is longer
/// than the file's current display id.
pub proof fn lemma_resolution_monotonic(files: Seq<GitFile>, i: int, k: int)
    requires
        0 <= i < files.len(),
        1 <= k <= files[i].stable_id.full_hash@.len(),
        forall|j: int|
            0 <= j < files.len() && j != i ==> !file_matches(
                #[trigger] files[j],
                files[i].stable_id.full_hash@.take(k),
            ),
    ensures
        match_count(files, files[i].stable_id.full_hash@.take(k)) == 1,
{
    let prefix = files[i].stable_id.full_hash@.take(k);
    assert(prefix =~= files[i].stable_id.full_hash@.subrange(0, k));
    assert(file_matches(files[i], prefix));
    lemma_match_count_one(files, prefix, i);
}

/// The verdict of resolving a typed identifier against the file list.
pub enum IdMatch {
    Unique(GitFile),
    Ambiguous(usize),
    NotFound,
}

/// Match the typed identifier against every file's full fingerprint. No
/// match is `NotFound`; exactly one is `Unique` with that file; several is
/// `Ambiguous` with the number of matches.
pub fn find_file_by_id(files: &[GitFile], id: &str) -> (r: IdMatch)
    ensures
        match r {
            IdMatch::NotFound => match_count(files@, id@) == 0,
            IdMatch::Ambiguous(n) => n == match_count(files@, id@) && n >= 2,
            IdMatch::Unique(f) => match_count(files@, id@) == 1 && exists|i: int|
                0 <= i < files@.len() && #[trigger] file_matches(files@[i], id@) && f == files@[i],
        },
{
    let n = files.len();
    let mut count: usize = 0;
    let mut first: usize = 0;
    let mut j: usize = 0;
    while j < n
        invariant
            0 <= j <= n,
            n == files@.len(),
            count as nat == match_count(files@.take(j as int), id@),
            count <= j,
            count > 0 ==> first < j && file_matches(files@[first as int], id@),
        decreases n - j,
    {
        proof {
            assert(files@.take(j + 1).drop_last() =~= files@.take(j as int));
            assert(files@.take(j + 1).last() == files@[j as int]);
        }
        if files[j].stable_id.matches(id) {
            if count == 0 {
                first = j;
            }
            count += 1;
        }
        j += 1;
    }
    proof {
        assert(files@.take(n as int) =~= files@);
    }
    if count == 0 {
        IdMatch::NotFound
    } else if count == 1 {
        IdMatch::Unique(files[first].clone())
    } else {
        IdMatch::Ambiguous(count)
    }
}

/// A file the user can act on without naming one: unstaged or untracked.
pub open spec fn is_actionable(f: GitFile) -> bool {
    f.file_type == FileType::Unstaged || f.file_type == FileType::Untracked
}

/// The first unstaged or untracked file of the list, if any.
pub fn get_first_actionable_file(files: &[GitFile]) -> (r: Option<GitFile>)
    ensures
        match r {
            Some(f) => exists|i: int|
                0 <= i < files@.len() && #[trigger] is_actionable(files@[i]) && f == files@[i]
                    && forall|k: int| 0 <= k < i ==> !is_actionable(files@[k]),
            None => forall|k: int| 0 <= k < files@.len() ==> !is_actionable(files@[k]),
        },
{
    let n = files.len();
    let mut j: usize = 0;
    while j < n
        invariant
            0 <= j <= n,
            n == files@.len(),
            forall|k: int| 0 <= k < j ==> !is_actionable(files@[k]),
        decreases n - j,
    {
        let actionable = match files[j].file_type {
            FileType::Unstaged => true,
            FileType::Untracked => true,
            FileType::Staged => false,
        };
        if actionable {
            proof {
                assert(is_actionable(files@[j as int]));
                assert(0 <= j < files@.len() && is_actionable(files@[j as int]) && files@[j as int]
                    == files@[j as int] && forall|k: int|
                    0 <= k < j ==> !is_actionable(files@[k]));
            }
            return Some(files[j].clone());
        }
        j += 1;
    }
    None
}

/// The verdict of resolving an optional typed identifier: the chosen file,
/// an ambiguity count, or no match.
pub enum ResolveResult {
    Found(GitFile),
    Ambiguous(usize),
    NotFound,
}

/// Choose a file for a command. With an identifier, resolve it against the
/// full fingerprints; without one, fall back to the first actionable file.
pub fn resolve_file(files: &[GitFile], id: Option<&String>) -> (r: ResolveResult)
    ensures
        match id {
            Some(s) => match r {
                ResolveResult::NotFound => match_count(files@, s@) == 0,
                ResolveResult::Ambiguous(n) => n == match_count(files@, s@) && n >= 2,
                ResolveResult::Found(f) => match_count(files@, s@) == 1 && exists|i: int|
                    0 <= i < files@.len() && #[trigger] file_matches(files@[i], s@) && f
                        == files@[i],
            },
            None => match r {
                ResolveResult::Found(f) => exists|i: int|
                    0 <= i < files@.len() && #[trigger] is_actionable(files@[i]) && f == files@[i]
                        && forall|k: int| 0 <= k < i ==> !is_actionable(files@[k]),
                ResolveResult::NotFound => forall|k: int|
                    0 <= k < files@.len() ==> !is_actionable(files@[k]),
                ResolveResult::Ambiguous(_) => false,
            },
        },
{
    match id {
        Some(s) => match find_file_by_id(files, s.as_str()) {
            IdMatch::Unique(f) => ResolveResult::Found(f),
            IdMatch::Ambiguous(n) => ResolveResult::Ambiguous(n),
            IdMatch::NotFound => ResolveResult::NotFound,
        },
        None => match get_first_actionable_file(files) {
            Some(f) => ResolveResult::Found(f),
            None => ResolveResult::NotFound,
        },
    }
}

/// One parsed line of the porcelain status output: the categories the file
/// occurs under, and its path with any surrounding quotes removed.
#[derive(Debug)]
pub struct StatusLine {
    pub staged: bool,
    pub unstaged: bool,
    pub untracked: bool,
    pub path: String,
}

/// The sequence without its leading double quotes.
pub open spec fn trim_leading_quotes(s: Seq<char>) -> Seq<char>
    decreases s.len(),
{
    if s.len() > 0 && s.first() == '"' {
        trim_leading_quotes(s.drop_first())
    } else {
        s
    }
}

/// The sequence without its trailing double quotes.
pub open spec fn trim_trailing_quotes(s: Seq<char>) -> Seq<char>
    decreases s.len(),
{
    if s.len() > 0 && s.last() == '"' {
        trim_trailing_quotes(s.drop_last())
    } else {
        s
    }
}

/// The sequence without double quotes on either end.
pub open spec fn trim_quotes(s: Seq<char>) -> Seq<char> {
    trim_trailing_quotes(trim_leading_quotes(s))
}

/// Parse one line of porcelain status output. A line needs at least two
/// status characters and a separator; the two status characters classify
/// the file, and the rest, stripped of quoting, is its path. A `??` line is
/// untracked; otherwise a non-blank first character marks staged changes
/// and a non-blank second character unstaged ones.
#[verifier::loop_isolation(false)]
pub fn parse_status_line(line: &str) -> (r: Option<StatusLine>)
    ensures
        match r {
            None => line@.len() < 3,
            Some(sl) => {
                &&& line@.len() >= 3
                &&& sl.untracked == (line@[0] == '?' && line@[1] == '?')
                &&& sl.staged == (!(line@[0] == '?' && line@[1] == '?') && line@[0] != ' ')
                &&& sl.unstaged == (!(line@[0] == '?' && line@[1] == '?') && line@[1] != ' ')
                &&& sl.path@ == trim_quotes(line@.skip(3))
            },
        },
{
    let n = line.unicode_len();
    if n < 3 {
        return None;
    }
    let c0 = line.get_char(0);
    let c1 = line.get_char(1);
    let untracked = c0 == '?' && c1 == '?';
    let staged = !untracked && c0 != ' ';
    let unstaged = !untracked && c1 != ' ';
    let mut start: usize = 3;
    let mut end: usize = n;
    while start < end && line.get_char(start) == '"'
        invariant
            3 <= start <= end,
            end == n,
            trim_leading_quotes(line@.skip(3)) == trim_leading_quotes(line@.skip(start as int)),
        decreases end - start,
    {
        proof {
            assert(line@.skip(start as int).drop_first() =~= line@.skip(start + 1));
        }
        start += 1;
    }
    proof {
        assert(trim_leading_quotes(line@.skip(start as int)) == line@.skip(start as int));
    }
    while end > start && line.get_char(end - 1) == '"'
        invariant
            3 <= start <= end <= n,
            trim_trailing_quotes(line@.skip(start as int)) == trim_trailing_quotes(
                line@.subrange(start as int, end as int),
            ),
        decreases end - start,
    {
        proof {
            assert(line@.subrange(start as int, end as int).last() == line@[end - 1]);
            assert(line@.subrange(start as int, end as int).drop_last() =~= line@.subrange(
                start as int,
                end - 1,
            ));
        }
        end -= 1;
    }
    proof {
        assert(line@.skip(start as int) =~= line@.subrange(start as int, n as int));
        assert(trim_trailing_quotes(line@.subrange(start as int, end as int)) == line@.subrange(
            start as int,
            end as int,
        ));
    }
    let mut path = String::new();
    let mut k: usize = start;
    while k < end
        invariant
            start <= k <= end,
            end <= n,
            n == line@.len(),
            path@ =~= line@.subrange(start as int, k as int),
        decreases end - k,
    {
        path.push(line.get_char(k));
        k += 1;
        proof {
            assert(path@ =~= line@.subrange(start as int, k as int));
        }
    }
    Some(StatusLine { staged, unstaged, untracked, path })
}

/// All characters are decimal digits, and there is at least one.
pub open spec fn all_digits(s: Seq<char>) -> bool {
    s.len() > 0 && forall|k: int| 0 <= k < s.len() ==> '0' <= #[trigger] s[k] <= '9'
}

/// The value of a digit sequence read in base ten.
pub open spec fn dec_val(s: Seq<char>) -> int
    decreases s.len(),
{
    if s.len() == 0 {
        0
    } else {
        dec_val(s.drop_last()) * 10 + (s.last() as int - '0' as int)
    }
}

/// The count a numstat field stands for: its base-ten value when it is all
/// digits and fits, zero otherwise (binary files report `-`).
pub open spec fn parse_count_spec(s: Seq<char>) -> u32 {
    if all_digits(s) && dec_val(s) <= u32::MAX {
        dec_val(s) as u32
    } else {
        0u32
    }
}

proof fn lemma_dec_val_nonneg(s: Seq<char>)
    requires
        forall|k: int| 0 <= k < s.len() ==> '0' <= #[trigger] s[k] <= '9',
    ensures
        dec_val(s) >= 0,
    decreases s.len(),
{
    if s.len() > 0 {
        lemma_dec_val_nonneg(s.drop_last());
    }
}

/// Read a decimal count as git's numstat output presents it.
#[verifier::loop_isolation(false)]
pub fn parse_count(s: &str) -> (r: u32)
    ensures
        r == parse_count_spec(s@),
{
    let n = s.unicode_len();
    if n == 0 {
        return 0;
    }
    let mut val: u32 = 0;
    let mut too_big = false;
    let mut k: usize = 0;
    while k < n
        invariant
            0 <= k <= n,
            forall|t: int| 0 <= t < k ==> '0' <= #[trigger] s@[t] <= '9',
            !too_big ==> val == dec_val(s@.take(k as int)),
            too_big ==> dec_val(s@.take(k as int)) > u32::MAX,
        decreases n - k,
    {
        let c = s.get_char(k);
        if c < '0' || c > '9' {
            return 0;
        }
        let d = c as u32 - '0' as u32;
        proof {
            assert(s@.take(k + 1).drop_last() =~= s@.take(k as int));
            assert(s@.take(k + 1).last() == s@[k as int]);
            lemma_dec_val_nonneg(s@.take(k as int));
        }
        if too_big {
            proof {
                assert(dec_val(s@.take(k + 1)) == dec_val(s@.take(k as int)) * 10 + d);
                assert(dec_val(s@.take(k as int)) * 10 >= dec_val(s@.take(k as int))) by {
                    vstd::arithmetic::mul::lemma_mul_inequality(
                        1,
                        10,
                        dec_val(s@.take(k as int)),
                    );
                    vstd::arithmetic::mul::lemma_mul_is_commutative(
                        10,
                        dec_val(s@.take(k as int)),
                    );
                }
            }
        } else if val > (u32::MAX - d) / 10 {
            proof {
                vstd::arithmetic::div_mod::lemma_fundamental_div_mod(
                    (u32::MAX - d) as int,
                    10,
                );
                assert(val * 10 + d > u32::MAX);
            }
            too_big = true;
        } else {
            proof {
                vstd::arithmetic::div_mod::lemma_fundamental_div_mod(
                    (u32::MAX - d) as int,
                    10,
                );
                assert(10 * ((u32::MAX - d) as int / 10) <= (u32::MAX - d) as int);
                assert(val * 10 <= 10 * ((u32::MAX - d) as int / 10)) by {
                    vstd::arithmetic::mul::lemma_mul_inequality(
                        val as int,
                        (u32::MAX - d) as int / 10,
                        10,
                    );
                    vstd::arithmetic::mul::lemma_mul_is_commutative(
                        10,
                        (u32::MAX - d) as int / 10,
                    );
                }
            }
            val = val * 10 + d;
        }
        k += 1;
    }
    proof {
        assert(s@.take(n as int) =~= s@);
    }
    if too_big {
        0
    } else {
        val
    }
}

/// Index of the first tab at or after `from`, or the length when there is
/// none.
pub open spec fn next_tab(s: Seq<char>, from: int) -> int
    decreases s.len() - from,
{
    if from < 0 || from >= s.len() {
        s.len() as int
    } else if s[from] == '\t' {
        from
    } else {
        next_tab(s, from + 1)
    }
}

/// Find the first tab at or after `from`.
#[verifier::loop_isolation(false)]
fn find_tab(s: &str, from: usize) -> (r: usize)
    requires
        from <= s@.len(),
    ensures
        r == next_tab(s@, from as int),
        from <= r <= s@.len(),
{
    let n = s.unicode_len();
    let mut k: usize = from;
    while k < n
        invariant
            from <= k <= n,
            next_tab(s@, from as int) == next_tab(s@, k as int),
        decreases n - k,
    {
        if s.get_char(k) == '\t' {
            return k;
        }
        k += 1;
    }
    n
}

/// Parse one line of numstat output: added count, removed count and path,
/// separated by tabs. A line with fewer than three fields gives nothing;
/// anything after a third tab is ignored, as the first three fields carry
/// the record.
pub fn parse_numstat_line(line: &str) -> (r: Option<(String, DiffStats)>)
    ensures
        ({
            let s = line@;
            let i1 = next_tab(s, 0);
            let i2 = next_tab(s, i1 + 1);
            let i3 = next_tab(s, i2 + 1);
            match r {
                None => i1 == s.len() || i2 == s.len(),
                Some(p) => {
                    &&& i1 < s.len()
                    &&& i2 < s.len()
                    &&& p.1.added == parse_count_spec(s.subrange(0, i1))
                    &&& p.1.removed == parse_count_spec(s.subrange(i1 + 1, i2))
                    &&& p.0@ == s.subrange(i2 + 1, i3)
                },
            }
        }),
{
    let n = line.unicode_len();
    let i1 = find_tab(line, 0);
    if i1 == n {
        return None;
    }
    let i2 = find_tab(line, i1 + 1);
    if i2 == n {
        return None;
    }
    let i3 = find_tab(line, i2 + 1);
    let added = parse_count(line.substring_char(0, i1));
    let removed = parse_count(line.substring_char(i1 + 1, i2));
    let path = line.substring_char(i2 + 1, i3).to_owned();
    Some((path, DiffStats { added, removed }))
}

/// One file occurrence reported by the status source, before identifiers
/// are assigned.
#[derive(Debug)]
pub struct FileEntry {
    pub mtime: u64,
    pub rel_path: String,
    pub abs_path: String,
    pub file_type: FileType,
    pub diff_stats: Option<DiffStats>,
}

impl Clone for FileEntry {
    /// An exact copy of every field.
    fn clone(&self) -> (r: Self)
        ensures
            r == *self,
    {
        FileEntry {
            mtime: self.mtime,
            rel_path: self.rel_path.clone(),
            abs_path: self.abs_path.clone(),
            file_type: self.file_type,
            diff_stats: self.diff_stats,
        }
    }
}

/// The entries of one category, in their original order.
pub open spec fn entries_of_type(entries: Seq<FileEntry>, t: FileType) -> Seq<FileEntry>
    decreases entries.len(),
{
    if entries.len() == 0 {
        Seq::empty()
    } else if entries.last().file_type == t {
        entries_of_type(entries.drop_last(), t).push(entries.last())
    } else {
        entries_of_type(entries.drop_last(), t)
    }
}

/// The entries grouped by category: unstaged first, then untracked, then
/// staged, each group in its original order.
pub open spec fn grouped_entries(entries: Seq<FileEntry>) -> Seq<FileEntry> {
    entries_of_type(entries, FileType::Unstaged) + entries_of_type(entries, FileType::Untracked)
        + entries_of_type(entries, FileType::Staged)
}

/// The files of one category, in their current order.
pub open spec fn files_of_type(files: Seq<GitFile>, t: FileType) -> Seq<GitFile>
    decreases files.len(),
{
    if files.len() == 0 {
        Seq::empty()
    } else if files.last().file_type == t {
        files_of_type(files.drop_last(), t).push(files.last())
    } else {
        files_of_type(files.drop_last(), t)
    }
}

/// Select the entries of one category, keeping their order.
#[verifier::loop_isolation(false)]
fn filter_entries(entries: &Vec<FileEntry>, t: FileType) -> (r: Vec<FileEntry>)
    ensures
        r@ == entries_of_type(entries@, t),
{
    let n = entries.len();
    let mut r: Vec<FileEntry> = Vec::new();
    let mut i: usize = 0;
    while i < n
        invariant
            0 <= i <= n,
            r@ == entries_of_type(entries@.take(i as int), t),
        decreases n - i,
    {
        proof {
            assert(entries@.take(i + 1).drop_last() =~= entries@.take(i as int));
            assert(entries@.take(i + 1).last() == entries@[i as int]);
        }
        if entries[i].file_type == t {
            r.push(entries[i].clone());
        }
        i += 1;
    }
    proof {
        assert(entries@.take(n as int) =~= entries@);
    }
    r
}

/// Select the files of one category, keeping their order.
#[verifier::loop_isolation(false)]
fn filter_files(files: &Vec<GitFile>, t: FileType) -> (r: Vec<GitFile>)
    ensures
        r@ == files_of_type(files@, t),
{
    let n = files.len();
    let mut r: Vec<GitFile> = Vec::new();
    let mut i: usize = 0;
    while i < n
        invariant
            0 <= i <= n,
            r@ == files_of_type(files@.take(i as int), t),
        decreases n - i,
    {
        proof {
            assert(files@.take(i + 1).drop_last() =~= files@.take(i as int));
            assert(files@.take(i + 1).last() == files@[i as int]);
        }
        if files[i].file_type == t {
            r.push(files[i].clone());
        }
        i += 1;
    }
    proof {
        assert(files@.take(n as int) =~= files@);
    }
    r
}

/// The paths of the entries, in order.
pub open spec fn entry_paths(entries: Seq<FileEntry>) -> Seq<String> {
    entries.map_values(|e: FileEntry| e.rel_path)
}

/// The files carry the entries' data with identifiers assigned over the
/// whole entry list: each full fingerprint is the entry path's fingerprint,
/// and each display id is its minimal collision-free prefix.
pub open spec fn ids_attached(
    entries: Seq<FileEntry>,
    alphabet: Seq<char>,
    files: Seq<GitFile>,
) -> bool {
    &&& files.len() == entries.len()
    &&& forall|i: int|
        0 <= i < entries.len() ==> {
            let e = entries[i];
            let f = #[trigger] files[i];
            &&& f.mtime == e.mtime
            &&& f.rel_path == e.rel_path
            &&& f.abs_path == e.abs_path
            &&& f.file_type == e.file_type
            &&& f.diff_stats == e.diff_stats
            &&& f.stable_id.full_hash@ == crate::ids::path_fingerprint(e.rel_path@, alphabet)
            &&& f.stable_id.display@ == crate::ids::path_fingerprint(e.rel_path@, alphabet).take(
                crate::ids::display_len(entry_paths(entries), alphabet, i),
            )
        }
}

/// Assign every entry its stable id, computed against the whole entry list.
#[verifier::loop_isolation(false)]
fn attach_ids(entries: &Vec<FileEntry>, id_chars: &Vec<char>) -> (files: Vec<GitFile>)
    requires
        id_chars@.len() >= 2,
    ensures
        ids_attached(entries@, id_chars@, files@),
{
    let n = entries.len();
    let mut paths: Vec<String> = Vec::new();
    let mut i: usize = 0;
    while i < n
        invariant
            0 <= i <= n,
            paths@.len() == i,
            forall|k: int| 0 <= k < i ==> #[trigger] paths@[k] == entries@[k].rel_path,
        decreases n - i,
    {
        paths.push(entries[i].rel_path.clone());
        i += 1;
    }
    proof {
        assert(paths@ =~= entry_paths(entries@));
    }
    let ids = crate::ids::generate_ids(&paths, id_chars);
    let mut files: Vec<GitFile> = Vec::new();
    let mut i: usize = 0;
    while i < n
        invariant
            0 <= i <= n,
            ids@.len() == n,
            n == entries@.len(),
            paths@ == entry_paths(entries@),
            forall|k: int|
                0 <= k < n ==> (#[trigger] ids@[k]).1@ == crate::ids::path_fingerprint(
                    paths@[k]@,
                    id_chars@,
                ),
            forall|k: int|
                0 <= k < n ==> (#[trigger] ids@[k]).0@ == crate::ids::path_fingerprint(
                    paths@[k]@,
                    id_chars@,
                ).take(crate::ids::display_len(paths@, id_chars@, k)),
            files@.len() == i,
            forall|k: int|
                0 <= k < i ==> {
                    let e = entries@[k];
                    let f = #[trigger] files@[k];
                    &&& f.mtime == e.mtime
                    &&& f.rel_path == e.rel_path
                    &&& f.abs_path == e.abs_path
                    &&& f.file_type == e.file_type
                    &&& f.diff_stats == e.diff_stats
                    &&& f.stable_id.full_hash@ == crate::ids::path_fingerprint(
                        e.rel_path@,
                        id_chars@,
                    )
                    &&& f.stable_id.display@ == crate::ids::path_fingerprint(
                        e.rel_path@,
                        id_chars@,
                    ).take(crate::ids::display_len(entry_paths(entries@), id_chars@, k))
                },
        decreases n - i,
    {
        let e = entries[i].clone();
        let display = ids[i].0.clone();
        let full_hash = ids[i].1.clone();
        files.push(
            GitFile {
                mtime: e.mtime,
                rel_path: e.rel_path,
                abs_path: e.abs_path,
                file_type: e.file_type,
                stable_id: StableId { display, full_hash },
                diff_stats: e.diff_stats,
            },
        );
        i += 1;
    }
    files
}

/// Where `x` goes in a list sorted by modification time: after every
/// element that does not exceed it, so equal times keep their order.
pub open spec fn insert_by_mtime(x: GitFile, s: Seq<GitFile>) -> Seq<GitFile>
    decreases s.len(),
{
    if s.len() == 0 {
        seq![x]
    } else if s.last().mtime <= x.mtime {
        s.push(x)
    } else {
        insert_by_mtime(x, s.drop_last()).push(s.last())
    }
}

/// Stable insertion sort by modification time.
pub open spec fn sort_by_mtime(s: Seq<GitFile>) -> Seq<GitFile>
    decreases s.len(),
{
    if s.len() == 0 {
        s
    } else {
        insert_by_mtime(s.last(), sort_by_mtime(s.drop_last()))
    }
}

proof fn lemma_insert_position(s: Seq<GitFile>, x: GitFile, pos: int)
    requires
        0 <= pos <= s.len(),
        forall|t: int| pos <= t < s.len() ==> s[t].mtime > x.mtime,
        pos > 0 ==> s[pos - 1].mtime <= x.mtime,
    ensures
        insert_by_mtime(x, s) == s.insert(pos, x),
    decreases s.len(),
{
    if s.len() == 0 {
        assert(s.insert(0, x) =~= seq![x]);
    } else if s.last().mtime <= x.mtime {
        assert(pos == s.len());
        assert(s.insert(pos, x) =~= s.push(x));
    } else {
        assert(pos < s.len());
        lemma_insert_position(s.drop_last(), x, pos);
        assert(s.insert(pos, x) =~= insert_by_mtime(x, s.drop_last()).push(s.last()));
    }
}

/// Sort the files by modification time, stably: files with equal times keep
/// their relative order.
#[verifier::loop_isolation(false)]
pub fn sort_files_by_mtime(files: &Vec<GitFile>) -> (r: Vec<GitFile>)
    ensures
        r@ == sort_by_mtime(files@),
{
    let n = files.len();
    let mut r: Vec<GitFile> = Vec::new();
    let mut i: usize = 0;
    while i < n
        invariant
            0 <= i <= n,
            r@ == sort_by_mtime(files@.take(i as int)),
            r@.len() == i,
        decreases n - i,
    {
        let x = files[i].clone();
        let mut pos: usize = r.len();
        while pos > 0 && r[pos - 1].mtime > x.mtime
            invariant
                0 <= pos <= r@.len(),
                forall|t: int| pos <= t < r@.len() ==> r@[t].mtime > x.mtime,
            decreases pos,
        {
            pos -= 1;
        }
        proof {
            lemma_insert_position(r@, x, pos as int);
            assert(files@.take(i + 1).drop_last() =~= files@.take(i as int));
            assert(files@.take(i + 1).last() == files@[i as int]);
        }
        r.insert(pos, x);
        i += 1;
    }
    proof {
        assert(files@.take(n as int) =~= files@);
    }
    r
}

proof fn lemma_insert_by_mtime_len(x: GitFile, s: Seq<GitFile>)
    ensures
        insert_by_mtime(x, s).len() == s.len() + 1,
    decreases s.len(),
{
    if s.len() > 0 && s.last().mtime > x.mtime {
        lemma_insert_by_mtime_len(x, s.drop_last());
    }
}

proof fn lemma_insert_by_mtime_sorted(x: GitFile, s: Seq<GitFile>)
    requires
        forall|a: int, b: int| 0 <= a <= b < s.len() ==> s[a].mtime <= s[b].mtime,
    ensures
        insert_by_mtime(x, s).len() == s.len() + 1,
        forall|a: int, b: int|
            0 <= a <= b < insert_by_mtime(x, s).len() ==> insert_by_mtime(x, s)[a].mtime
                <= insert_by_mtime(x, s)[b].mtime,
        insert_by_mtime(x, s).to_multiset() == s.to_multiset().insert(x),
    decreases s.len(),
{
    broadcast use vstd::seq_lib::group_to_multiset_ensures;

    lemma_insert_by_mtime_len(x, s);
    if s.len() == 0 {
        assert(seq![x].drop_last() =~= Seq::<GitFile>::empty());
        assert(seq![x] =~= Seq::<GitFile>::empty().push(x));
    } else if s.last().mtime <= x.mtime {
        assert(forall|a: int| 0 <= a < s.len() ==> s[a].mtime <= x.mtime);
    } else {
        lemma_insert_by_mtime_sorted(x, s.drop_last());
        let inner = insert_by_mtime(x, s.drop_last());
        assert(forall|a: int|
            0 <= a < inner.len() ==> #[trigger] inner[a].mtime <= s.last().mtime) by {
            assert(inner[inner.len() - 1].mtime <= s.last().mtime || inner[inner.len() - 1]
                == x);
        }
        assert(s.drop_last().push(s.last()) =~= s);
        assert(s.to_multiset() =~= s.drop_last().to_multiset().insert(s.last()));
        assert(inner.push(s.last()).to_multiset() =~= inner.to_multiset().insert(s.last()));
    }
}

/// The sort keeps exactly the given files and orders them by modification
/// time.
pub proof fn lemma_sort_by_mtime_ensures(s: Seq<GitFile>)
    ensures
        sort_by_mtime(s).len() == s.len(),
        forall|a: int, b: int|
            0 <= a <= b < s.len() ==> sort_by_mtime(s)[a].mtime <= sort_by_mtime(s)[b].mtime,
        sort_by_mtime(s).to_multiset() == s.to_multiset(),
    decreases s.len(),
{
    broadcast use vstd::seq_lib::group_to_multiset_ensures;

    if s.len() > 0 {
        lemma_sort_by_mtime_ensures(s.drop_last());
        lemma_insert_by_mtime_sorted(s.last(), sort_by_mtime(s.drop_last()));
        assert(s.drop_last().push(s.last()) =~= s);
        assert(s.to_multiset() =~= s.drop_last().to_multiset().insert(s.last()));
    }
}

/// Build the presented file list out of the reported entries: group by
/// category — unstaged, untracked, staged — assign ids over the grouped
/// list, and order each category by modification time, stably.
pub fn build_git_files(entries: &Vec<FileEntry>, id_chars: &Vec<char>) -> (r: Vec<GitFile>)
    requires
        id_chars@.len() >= 2,
    ensures
        exists|attached: Seq<GitFile>|
            {
                &&& #[trigger] ids_attached(grouped_entries(entries@), id_chars@, attached)
                &&& r@ == sort_by_mtime(files_of_type(attached, FileType::Unstaged))
                    + sort_by_mtime(files_of_type(attached, FileType::Untracked)) + sort_by_mtime(
                    files_of_type(attached, FileType::Staged),
                )
            },
{
    let unstaged = filter_entries(entries, FileType::Unstaged);
    let untracked = filter_entries(entries, FileType::Untracked);
    let staged = filter_entries(entries, FileType::Staged);
    let mut grouped = unstaged;
    let mut untracked = untracked;
    let mut staged = staged;
    grouped.append(&mut untracked);
    grouped.append(&mut staged);
    proof {
        assert(grouped@ == grouped_entries(entries@));
    }
    let attached = attach_ids(&grouped, id_chars);
    let sorted_unstaged = sort_files_by_mtime(&filter_files(&attached, FileType::Unstaged));
    let sorted_untracked = sort_files_by_mtime(&filter_files(&attached, FileType::Untracked));
    let sorted_staged = sort_files_by_mtime(&filter_files(&attached, FileType::Staged));
    let mut r = sorted_unstaged;
    let mut rest = sorted_untracked;
    let mut rest2 = sorted_staged;
    r.append(&mut rest);
    r.append(&mut rest2);
    proof {
        let a = attached@;
        assert(ids_attached(grouped_entries(entries@), id_chars@, a) && r@ == sort_by_mtime(
            files_of_type(a, FileType::Unstaged),
        ) + sort_by_mtime(files_of_type(a, FileType::Untracked)) + sort_by_mtime(
            files_of_type(a, FileType::Staged),
        ));
    }
    r
}

} // verus!
