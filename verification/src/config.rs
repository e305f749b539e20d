//! Configuration values that the identifier components consume: an editor
//! command and the identifier alphabet. The alphabet must be an ordered set
//! of at least two distinct characters: configured duplicates are dropped
//! (first occurrence kept), and when fewer than two distinct characters
//! remain the built-in default substitutes, so every component can rely on
//! a duplicate-free alphabet with a branching factor of at least two.

use crate::interactive::alphabet_distinct;
use crate::text::contains_char;
use crate::text::str_chars;
use vstd::prelude::*;
use vstd::string::*;

verus! {

/// The configured editor command and identifier alphabet.
#[derive(Debug)]
pub struct Config {
    pub editor: String,
    pub id_chars: String,
}

impl Clone for Config {
    /// An exact copy of both strings.
    fn clone(&self) -> (r: Self)
        ensures
            r == *self,
    {
        Config { editor: self.editor.clone(), id_chars: self.id_chars.clone() }
    }
}

/// The built-in editor command.
pub open spec fn default_editor() -> Seq<char> {
    "vim"@
}

/// The built-in identifier alphabet: eight home-row characters.
pub open spec fn default_id_chars() -> Seq<char> {
    "dfghklsa"@
}

/// The built-in alphabet has eight characters, no two alike.
pub proof fn lemma_default_id_chars_ok()
    ensures
        default_id_chars().len() == 8,
        alphabet_distinct(default_id_chars()),
{
    reveal_strlit("dfghklsa");
}

/// The sequence with every repeated character dropped, keeping the first
/// occurrence of each.
pub open spec fn dedup_chars(s: Seq<char>) -> Seq<char>
    decreases s.len(),
{
    if s.len() == 0 {
        Seq::empty()
    } else if dedup_chars(s.drop_last()).contains(s.last()) {
        dedup_chars(s.drop_last())
    } else {
        dedup_chars(s.drop_last()).push(s.last())
    }
}

/// Dropping repeats leaves no two characters alike.
pub proof fn lemma_dedup_distinct(s: Seq<char>)
    ensures
        alphabet_distinct(dedup_chars(s)),
    decreases s.len(),
{
    if s.len() > 0 {
        lemma_dedup_distinct(s.drop_last());
        let rest = dedup_chars(s.drop_last());
        let c = s.last();
        if !rest.contains(c) {
            assert forall|x: int, y: int|
                0 <= x < y < rest.push(c).len() implies rest.push(c)[x] != rest.push(c)[y] by {
                if y == rest.len() {
                    if rest[x] == c {
                        assert(rest.contains(c));
                    }
                }
            }
        }
    }
}

/// The alphabet that takes effect: the configured characters with repeats
/// dropped, when at least two distinct ones were given, else the built-in
/// default.
pub open spec fn effective_id_chars(c: Config) -> Seq<char> {
    if dedup_chars(c.id_chars@).len() >= 2 {
        dedup_chars(c.id_chars@)
    } else {
        default_id_chars()
    }
}

impl Default for Config {
    /// The built-in editor command and identifier alphabet.
    fn default() -> (r: Self)
        ensures
            r.editor@ == default_editor(),
            r.id_chars@ == default_id_chars(),
    {
        Config { editor: "vim".to_owned(), id_chars: "dfghklsa".to_owned() }
    }
}

/// Drop every repeated character, keeping first occurrences in order.
fn dedup_chars_vec(chars: &Vec<char>) -> (r: Vec<char>)
    ensures
        r@ == dedup_chars(chars@),
{
    let n = chars.len();
    let mut r: Vec<char> = Vec::new();
    let mut i: usize = 0;
    while i < n
        invariant
            0 <= i <= n,
            n == chars@.len(),
            r@ == dedup_chars(chars@.take(i as int)),
        decreases n - i,
    {
        proof {
            assert(chars@.take(i + 1).drop_last() =~= chars@.take(i as int));
            assert(chars@.take(i + 1).last() == chars@[i as int]);
        }
        if !contains_char(&r, chars[i]) {
            r.push(chars[i]);
        }
        i += 1;
    }
    proof {
        assert(chars@.take(n as int) =~= chars@);
    }
    r
}

impl Config {
    /// The identifier alphabet in effect: the configured characters with
    /// repeats dropped, or the built-in default when fewer than two
    /// distinct characters were configured. The result is always a
    /// duplicate-free alphabet of at least two characters.
    pub fn id_chars(&self) -> (r: Vec<char>)
        ensures
            r@ == effective_id_chars(*self),
            r@.len() >= 2,
            alphabet_distinct(r@),
    {
        let chars = str_chars(self.id_chars.as_str());
        let deduped = dedup_chars_vec(&chars);
        proof {
            lemma_dedup_distinct(self.id_chars@);
        }
        if deduped.len() >= 2 {
            deduped
        } else {
            proof {
                lemma_default_id_chars_ok();
            }
            str_chars("dfghklsa")
        }
    }
}

} // verus!
