//! Decisions behind the command-line entry points: recognising an
//! identifier argument, naming the action that follows it, and assembling a
//! commit message.

use crate::config::Config;
use crate::git_status::FileType;
use crate::git_status::GitFile;
use crate::config::effective_id_chars;
use crate::text::contains_char;
use crate::text::str_eq;
use vstd::prelude::*;
use vstd::string::*;

verus! {

/// Is the argument shaped like a file identifier: non-empty and drawn
/// entirely from the effective alphabet?
pub fn is_file_id(s: &str, config: &Config) -> (r: bool)
    ensures
        r == (s@.len() > 0 && forall|k: int|
            0 <= k < s@.len() ==> effective_id_chars(*config).contains(#[trigger] s@[k])),
{
    let id_chars = config.id_chars();
    let n = s.unicode_len();
    if n == 0 {
        return false;
    }
    let mut k: usize = 0;
    while k < n
        invariant
            0 <= k <= n,
            n == s@.len(),
            id_chars@ == effective_id_chars(*config),
            forall|t: int| 0 <= t < k ==> effective_id_chars(*config).contains(#[trigger] s@[t]),
        decreases n - k,
    {
        if !contains_char(&id_chars, s.get_char(k)) {
            return false;
        }
        k += 1;
    }
    true
}

/// An action requested on a resolved file.
#[derive(Debug, Clone, Copy, PartialEq, Eq, Structural)]
pub enum FileAction {
    Add,
    Diff,
    StagedDiff,
    Edit,
}

/// Recognise an action word, long or short form.
pub fn parse_action(s: &str) -> (r: Option<FileAction>)
    ensures
        match r {
            Some(FileAction::Add) => s@ == "a"@ || s@ == "add"@,
            Some(FileAction::Diff) => s@ == "d"@ || s@ == "diff"@,
            Some(FileAction::StagedDiff) => s@ == "sd"@ || s@ == "staged-diff"@,
            Some(FileAction::Edit) => s@ == "e"@ || s@ == "v"@ || s@ == "edit"@,
            None => s@ != "a"@ && s@ != "add"@ && s@ != "d"@ && s@ != "diff"@ && s@ != "sd"@
                && s@ != "staged-diff"@ && s@ != "e"@ && s@ != "v"@ && s@ != "edit"@,
        },
{
    proof {
        reveal_strlit("a");
        reveal_strlit("add");
        reveal_strlit("d");
        reveal_strlit("diff");
        reveal_strlit("sd");
        reveal_strlit("staged-diff");
        reveal_strlit("e");
        reveal_strlit("v");
        reveal_strlit("edit");
    }
    if str_eq(s, "a") || str_eq(s, "add") {
        Some(FileAction::Add)
    } else if str_eq(s, "d") || str_eq(s, "diff") {
        Some(FileAction::Diff)
    } else if str_eq(s, "sd") || str_eq(s, "staged-diff") {
        Some(FileAction::StagedDiff)
    } else if str_eq(s, "e") || str_eq(s, "v") || str_eq(s, "edit") {
        Some(FileAction::Edit)
    } else {
        None
    }
}

/// The git arguments that show a file's working-tree diff: an untracked
/// file is compared against the empty file, a tracked one against the
/// index.
pub fn diff_args(file: &GitFile) -> (r: Vec<String>)
    ensures
        file.file_type == FileType::Untracked ==> r@.len() == 4 && r@[0]@ == "diff"@ && r@[1]@
            == "--no-index"@ && r@[2]@ == "/dev/null"@ && r@[3]@ == file.abs_path@,
        file.file_type != FileType::Untracked ==> r@.len() == 2 && r@[0]@ == "diff"@ && r@[1]@
            == file.abs_path@,
{
    let mut r: Vec<String> = Vec::new();
    r.push("diff".to_owned());
    if file.file_type == FileType::Untracked {
        r.push("--no-index".to_owned());
        r.push("/dev/null".to_owned());
    }
    r.push(file.abs_path.clone());
    r
}

/// The git arguments that show a file's staged diff.
pub fn staged_diff_args(file: &GitFile) -> (r: Vec<String>)
    ensures
        r@.len() == 3 && r@[0]@ == "diff"@ && r@[1]@ == "--staged"@ && r@[2]@ == file.abs_path@,
{
    let mut r: Vec<String> = Vec::new();
    r.push("diff".to_owned());
    r.push("--staged".to_owned());
    r.push(file.abs_path.clone());
    r
}

/// The words of a commit message joined by single spaces.
pub open spec fn joined(parts: Seq<String>) -> Seq<char>
    decreases parts.len(),
{
    if parts.len() == 0 {
        Seq::empty()
    } else if parts.len() == 1 {
        parts[0]@
    } else {
        joined(parts.drop_last()) + seq![' '] + parts.last()@
    }
}

/// Join the message words with spaces; an empty word list is refused, as a
/// commit needs a message.
#[verifier::loop_isolation(false)]
pub fn commit_message(message: &Vec<String>) -> (r: Option<String>)
    ensures
        match r {
            None => message@.len() == 0,
            Some(m) => message@.len() > 0 && m@ == joined(message@),
        },
{
    let n = message.len();
    if n == 0 {
        return None;
    }
    let mut m = String::new();
    m.append(message[0].as_str());
    proof {
        assert(message@.take(1)[0] == message@[0]);
        assert(m@ == joined(message@.take(1)));
    }
    let mut i: usize = 1;
    while i < n
        invariant
            1 <= i <= n,
            m@ == joined(message@.take(i as int)),
        decreases n - i,
    {
        m.push(' ');
        m.append(message[i].as_str());
        i += 1;
        proof {
            let t = message@.take(i as int);
            assert(t.len() >= 2);
            assert(t.drop_last() =~= message@.take(i - 1));
            assert(t.last() == message@[i - 1]);
            assert(m@ =~= joined(message@.take(i - 1)) + seq![' '] + message@[i - 1]@);
        }
    }
    proof {
        assert(message@.take(n as int) =~= message@);
    }
    Some(m)
}

} // verus!
