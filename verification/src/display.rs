//! Decisions behind list rendering: which plain diff lines count as change
//! lines, and when a file's diff is shown inline. Colouring and printing
//! are terminal work and stay outside the library.

use crate::git_status::GitFile;
use crate::git_status::is_actionable;
use crate::text::chars_to_string;
use crate::text::str_chars;
use vstd::prelude::*;
use vstd::string::*;

verus! {

/// The sequence without terminal escape characters.
pub open spec fn drop_escapes(s: Seq<char>) -> Seq<char>
    decreases s.len(),
{
    if s.len() == 0 {
        Seq::empty()
    } else if s.last() == '\x1b' {
        drop_escapes(s.drop_last())
    } else {
        drop_escapes(s.drop_last()).push(s.last())
    }
}

/// The sequence with every occurrence of `pat` removed, scanning left to
/// right without overlap.
pub open spec fn remove_all(s: Seq<char>, pat: Seq<char>) -> Seq<char>
    decreases s.len(),
        when pat.len() >= 1
{
    if s.len() < pat.len() {
        s
    } else if s.take(pat.len() as int) == pat {
        remove_all(s.skip(pat.len() as int), pat)
    } else {
        seq![s[0]] + remove_all(s.skip(1), pat)
    }
}

/// A coloured diff line reduced to its plain text: escape characters
/// dropped, then each colour code removed, in the order the renderer
/// strips them.
pub open spec fn strip_color_spec(s: Seq<char>) -> Seq<char> {
    remove_all(
        remove_all(
            remove_all(remove_all(remove_all(drop_escapes(s), "[0m"@), "[31m"@), "[32m"@),
            "[1m"@,
        ),
        "[m"@,
    )
}

/// Drop the terminal escape characters, keeping everything else in order.
fn drop_escape_chars(chars: &Vec<char>) -> (r: Vec<char>)
    ensures
        r@ == drop_escapes(chars@),
{
    let n = chars.len();
    let mut r: Vec<char> = Vec::new();
    let mut i: usize = 0;
    while i < n
        invariant
            0 <= i <= n,
            n == chars@.len(),
            r@ == drop_escapes(chars@.take(i as int)),
        decreases n - i,
    {
        proof {
            assert(chars@.take(i + 1).drop_last() =~= chars@.take(i as int));
            assert(chars@.take(i + 1).last() == chars@[i as int]);
        }
        if chars[i] != '\x1b' {
            r.push(chars[i]);
        }
        i += 1;
    }
    proof {
        assert(chars@.take(n as int) =~= chars@);
    }
    r
}

/// Do the characters at `at` equal the pattern?
fn window_eq(chars: &Vec<char>, at: usize, pat: &Vec<char>) -> (r: bool)
    requires
        at + pat@.len() <= chars@.len(),
    ensures
        r == (chars@.subrange(at as int, at + pat@.len()) == pat@),
{
    let n = chars.len();
    let plen = pat.len();
    let mut k: usize = 0;
    while k < plen
        invariant
            0 <= k <= plen,
            plen == pat@.len(),
            n == chars@.len(),
            at + plen <= n,
            forall|t: int| 0 <= t < k ==> chars@[at + t] == pat@[t],
        decreases plen - k,
    {
        if chars[at + k] != pat[k] {
            proof {
                assert(chars@.subrange(at as int, at + pat@.len())[k as int] != pat@[k as int]);
            }
            return false;
        }
        k += 1;
    }
    proof {
        assert(chars@.subrange(at as int, at + pat@.len()) =~= pat@);
    }
    true
}

/// Remove every occurrence of the pattern, scanning left to right.
#[verifier::loop_isolation(false)]
fn remove_pattern(chars: &Vec<char>, pat: &Vec<char>) -> (r: Vec<char>)
    requires
        pat@.len() >= 1,
    ensures
        r@ == remove_all(chars@, pat@),
{
    let n = chars.len();
    let plen = pat.len();
    let mut r: Vec<char> = Vec::new();
    let mut i: usize = 0;
    proof {
        assert(chars@.skip(0) =~= chars@);
    }
    while i < n
        invariant
            0 <= i <= n,
            remove_all(chars@, pat@) == r@ + remove_all(chars@.skip(i as int), pat@),
        decreases n - i,
    {
        let ghost t = chars@.skip(i as int);
        if n - i >= plen && window_eq(chars, i, pat) {
            proof {
                assert(t.take(plen as int) =~= chars@.subrange(i as int, i + plen));
                assert(t.skip(plen as int) =~= chars@.skip(i + plen));
                assert(remove_all(t, pat@) == remove_all(chars@.skip(i + plen), pat@));
            }
            i += plen;
        } else {
            let ghost pre = r@;
            r.push(chars[i]);
            proof {
                if t.len() >= plen {
                    assert(t.take(plen as int) =~= chars@.subrange(i as int, i + plen));
                    assert(t.take(plen as int) != pat@);
                    assert(remove_all(t, pat@) == seq![t[0]] + remove_all(t.skip(1), pat@));
                } else {
                    assert(remove_all(t, pat@) == t);
                    assert(remove_all(t.skip(1), pat@) == t.skip(1));
                    assert(t =~= seq![t[0]] + t.skip(1));
                }
                assert(t[0] == chars@[i as int]);
                assert(t.skip(1) =~= chars@.skip(i + 1));
                assert(pre + remove_all(t, pat@) =~= r@ + remove_all(chars@.skip(i + 1), pat@));
            }
            i += 1;
        }
    }
    proof {
        assert(chars@.skip(n as int) =~= Seq::<char>::empty());
        assert(remove_all(Seq::<char>::empty(), pat@) == Seq::<char>::empty());
        assert(r@ + Seq::<char>::empty() =~= r@);
    }
    r
}

/// Reduce a coloured diff line to its plain text: drop the terminal escape
/// characters, then remove each colour code the differ emits.
pub fn strip_color_codes(line: &str) -> (r: String)
    ensures
        r@ == strip_color_spec(line@),
{
    proof {
        reveal_strlit("[0m");
        reveal_strlit("[31m");
        reveal_strlit("[32m");
        reveal_strlit("[1m");
        reveal_strlit("[m");
    }
    let chars = str_chars(line);
    let plain = drop_escape_chars(&chars);
    let stage1 = remove_pattern(&plain, &str_chars("[0m"));
    let stage2 = remove_pattern(&stage1, &str_chars("[31m"));
    let stage3 = remove_pattern(&stage2, &str_chars("[32m"));
    let stage4 = remove_pattern(&stage3, &str_chars("[1m"));
    let stage5 = remove_pattern(&stage4, &str_chars("[m"));
    let len = stage5.len();
    let out = chars_to_string(&stage5, len);
    proof {
        assert(stage5@.take(len as int) =~= stage5@);
    }
    out
}

/// A plain diff line worth showing inline: it starts with `+` or `-` but is
/// not a `+++` or `---` file header.
pub open spec fn is_change_line_spec(s: Seq<char>) -> bool {
    s.len() > 0 && (s[0] == '+' || s[0] == '-') && !(s.len() >= 3 && s[1] == s[0] && s[2] == s[0])
}

/// Is this plain (uncoloured) diff line a change line: starting with `+` or
/// `-`, but not a `+++`/`---` file header?
pub fn is_change_line(plain: &str) -> (r: bool)
    ensures
        r == is_change_line_spec(plain@),
{
    let n = plain.unicode_len();
    if n == 0 {
        return false;
    }
    let c0 = plain.get_char(0);
    if c0 != '+' && c0 != '-' {
        return false;
    }
    if n >= 3 && plain.get_char(1) == c0 && plain.get_char(2) == c0 {
        return false;
    }
    true
}

/// The total number of changed lines recorded for a file.
pub open spec fn total_changes(f: GitFile) -> int {
    match f.diff_stats {
        Some(s) => s.added + s.removed,
        None => 0,
    }
}

/// Show a file's diff inline exactly when the file is actionable and has
/// between one and six changed lines.
pub fn should_show_inline_diff(file: &GitFile) -> (r: bool)
    ensures
        r == (is_actionable(*file) && 0 < total_changes(*file) <= 6),
{
    let actionable = match file.file_type {
        crate::git_status::FileType::Unstaged => true,
        crate::git_status::FileType::Untracked => true,
        crate::git_status::FileType::Staged => false,
    };
    if !actionable {
        return false;
    }
    match &file.diff_stats {
        Some(s) => {
            let total = s.added as u64 + s.removed as u64;
            total > 0 && total <= 6
        },
        None => false,
    }
}

} // verus!
