//! Small helpers on strings and character sequences shared by the
//! identifier components: prefix tests, equality, and building a `String`
//! from characters.

use vstd::prelude::*;
use vstd::string::*;

verus! {

/// Relies on `String::push` of std: appends exactly the given character.
pub assume_specification[ String::push ](s: &mut String, ch: char)
    ensures
        final(s)@ == old(s)@.push(ch),
;

/// `p` is a prefix of `s`.
pub open spec fn is_prefix_of(p: Seq<char>, s: Seq<char>) -> bool {
    p.len() <= s.len() && p == s.subrange(0, p.len() as int)
}

/// Character-for-character equality of two string slices.
pub fn str_eq(a: &str, b: &str) -> (r: bool)
    ensures
        r == (a@ == b@),
{
    let a_len = a.unicode_len();
    let b_len = b.unicode_len();
    if a_len != b_len {
        return false;
    }
    let mut k: usize = 0;
    while k < a_len
        invariant
            0 <= k <= a_len,
            a_len == a@.len(),
            a_len == b@.len(),
            forall|t: int| 0 <= t < k ==> a@[t] == b@[t],
        decreases a_len - k,
    {
        if a.get_char(k) != b.get_char(k) {
            return false;
        }
        k += 1;
    }
    proof {
        assert(a@ =~= b@);
    }
    true
}

/// Does `s` start with `p`, character for character?
pub fn str_starts_with(s: &str, p: &str) -> (r: bool)
    ensures
        r == is_prefix_of(p@, s@),
{
    let s_len = s.unicode_len();
    let p_len = p.unicode_len();
    if p_len > s_len {
        return false;
    }
    let mut k: usize = 0;
    while k < p_len
        invariant
            0 <= k <= p_len,
            p_len == p@.len(),
            s_len == s@.len(),
            p_len <= s_len,
            forall|t: int| 0 <= t < k ==> p@[t] == s@[t],
        decreases p_len - k,
    {
        if p.get_char(k) != s.get_char(k) {
            proof {
                assert(p@[k as int] != s@.subrange(0, p@.len() as int)[k as int]);
            }
            return false;
        }
        k += 1;
    }
    proof {
        assert(p@ =~= s@.subrange(0, p@.len() as int));
    }
    true
}

/// The characters of a string slice, as a vector.
pub fn str_chars(s: &str) -> (r: Vec<char>)
    ensures
        r@ == s@,
{
    let n = s.unicode_len();
    let mut r: Vec<char> = Vec::new();
    let mut k: usize = 0;
    while k < n
        invariant
            0 <= k <= n,
            n == s@.len(),
            r@ =~= s@.take(k as int),
        decreases n - k,
    {
        r.push(s.get_char(k));
        k += 1;
        proof {
            assert(r@ =~= s@.take(k as int));
        }
    }
    proof {
        assert(s@.take(n as int) =~= s@);
    }
    r
}

/// Does the character vector contain `c`?
pub fn contains_char(chars: &Vec<char>, c: char) -> (r: bool)
    ensures
        r == chars@.contains(c),
{
    let n = chars.len();
    let mut j: usize = 0;
    while j < n
        invariant
            0 <= j <= n,
            n == chars@.len(),
            forall|t: int| 0 <= t < j ==> chars@[t] != c,
        decreases n - j,
    {
        if chars[j] == c {
            return true;
        }
        j += 1;
    }
    false
}

/// Build a `String` out of the first `len` characters of `chars`.
pub fn chars_to_string(chars: &Vec<char>, len: usize) -> (s: String)
    requires
        len <= chars@.len(),
    ensures
        s@ == chars@.take(len as int),
{
    let mut s = String::new();
    let mut k: usize = 0;
    while k < len
        invariant
            0 <= k <= len,
            len <= chars@.len(),
            s@ =~= chars@.take(k as int),
        decreases len - k,
    {
        s.push(chars[k]);
        k += 1;
        proof {
            assert(s@ =~= chars@.take(k as int));
        }
    }
    s
}

} // verus!
