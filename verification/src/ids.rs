//! The fingerprint hasher and the display-id assigner.
//!
//! A fingerprint is a fixed-length string over a caller-supplied alphabet,
//! derived from a path's bytes by FNV-1a hashing followed by repeated
//! division by the alphabet size. The display id of an entry is the shortest
//! fingerprint prefix that no other entry with a distinct path shares.

use crate::text::chars_to_string;
use crate::text::str_eq;
use vstd::prelude::*;
use vstd::string::*;
use vstd::utf8::encode_utf8;

verus! {

/// FNV-1a offset basis.
pub const FNV_OFFSET: u64 = 0xcbf29ce484222325;

/// FNV-1a prime.
pub const FNV_PRIME: u64 = 0x100000001b3;

/// Number of alphabet symbols in every fingerprint.
pub const FINGERPRINT_LEN: usize = 12;

/// One FNV-1a round: xor the next byte into the hash, then multiply by the
/// FNV prime with 64-bit wraparound.
pub open spec fn fnv1a_step(hash: u64, byte: u8) -> u64 {
    (hash ^ (byte as u64)).wrapping_mul(FNV_PRIME)
}

/// FNV-1a hash of a byte sequence.
pub open spec fn fnv1a_spec(bytes: Seq<u8>) -> u64
    decreases bytes.len(),
{
    if bytes.len() == 0 {
        FNV_OFFSET
    } else {
        fnv1a_step(fnv1a_spec(bytes.drop_last()), bytes.last())
    }
}

/// The `count` symbols obtained from `hash` by repeatedly taking the
/// remainder modulo the alphabet size and then dividing, least significant
/// digit first.
pub open spec fn symbol_seq(hash: nat, alphabet: Seq<char>, count: nat) -> Seq<char>
    decreases count,
{
    if count == 0 {
        Seq::empty()
    } else {
        seq![alphabet[(hash % alphabet.len()) as int]] + symbol_seq(
            hash / alphabet.len(),
            alphabet,
            (count - 1) as nat,
        )
    }
}

/// The fingerprint of a path: its FNV-1a hash rendered as `FINGERPRINT_LEN`
/// symbols of the alphabet.
pub open spec fn fingerprint_spec(bytes: Seq<u8>, alphabet: Seq<char>) -> Seq<char> {
    symbol_seq(fnv1a_spec(bytes) as nat, alphabet, FINGERPRINT_LEN as nat)
}

proof fn lemma_symbol_seq_len(hash: nat, alphabet: Seq<char>, count: nat)
    requires
        alphabet.len() >= 1,
    ensures
        symbol_seq(hash, alphabet, count).len() == count,
    decreases count,
{
    if count != 0 {
        lemma_symbol_seq_len(hash / alphabet.len(), alphabet, (count - 1) as nat);
    }
}

/// Every fingerprint has exactly `FINGERPRINT_LEN` symbols, whatever the
/// path and the alphabet.
pub proof fn lemma_fingerprint_fixed_length(bytes: Seq<u8>, alphabet: Seq<char>)
    requires
        alphabet.len() >= 2,
    ensures
        fingerprint_spec(bytes, alphabet).len() == FINGERPRINT_LEN,
{
    lemma_symbol_seq_len(fnv1a_spec(bytes) as nat, alphabet, FINGERPRINT_LEN as nat);
}

/// Fingerprints are deterministic: two fingerprints computed from the same
/// path bytes over the same alphabet are the same sequence of symbols.
pub proof fn lemma_fingerprint_deterministic(
    first: Seq<char>,
    second: Seq<char>,
    bytes: Seq<u8>,
    alphabet: Seq<char>,
)
    requires
        first == fingerprint_spec(bytes, alphabet),
        second == fingerprint_spec(bytes, alphabet),
    ensures
        first == second,
{
}

/// FNV-1a hash of the path's raw bytes.
pub fn fnv1a_hash(s: &str) -> (hash: u64)
    ensures
        hash == fnv1a_spec(s.spec_bytes()),
{
    let bytes = s.as_bytes();
    let mut hash: u64 = FNV_OFFSET;
    let mut i: usize = 0;
    while i < bytes.len()
        invariant
            0 <= i <= bytes@.len(),
            bytes@ == s.spec_bytes(),
            hash == fnv1a_spec(bytes@.take(i as int)),
        decreases bytes@.len() - i,
    {
        let b = bytes[i];
        proof {
            assert(bytes@.take(i + 1).drop_last() =~= bytes@.take(i as int));
            assert(bytes@.take(i + 1).last() == bytes@[i as int]);
        }
        hash = (hash ^ (b as u64)).wrapping_mul(FNV_PRIME);
        i += 1;
    }
    proof {
        assert(bytes@.take(bytes@.len() as int) =~= bytes@);
    }
    hash
}

/// Render a path as its fingerprint: `FINGERPRINT_LEN` symbols of the
/// alphabet, derived from the FNV-1a hash of the path's bytes.
pub fn hash_to_id_chars(s: &str, id_chars: &Vec<char>) -> (chars: Vec<char>)
    requires
        id_chars@.len() >= 2,
    ensures
        chars@ == fingerprint_spec(s.spec_bytes(), id_chars@),
        chars@.len() == FINGERPRINT_LEN,
{
    let mut hash = fnv1a_hash(s);
    let base_len = id_chars.len();
    let base = base_len as u64;
    let mut chars: Vec<char> = Vec::new();
    let mut k: usize = 0;
    while k < FINGERPRINT_LEN
        invariant
            0 <= k <= FINGERPRINT_LEN,
            base as nat == id_chars@.len(),
            base_len == id_chars@.len(),
            base >= 2,
            chars@.len() == k,
            fingerprint_spec(s.spec_bytes(), id_chars@) == chars@ + symbol_seq(
                hash as nat,
                id_chars@,
                (FINGERPRINT_LEN - k) as nat,
            ),
        decreases FINGERPRINT_LEN - k,
    {
        let ghost old_chars = chars@;
        let ghost old_hash = hash as nat;
        assert(hash % base < base);
        let idx = (hash % base) as usize;
        assert(idx < id_chars@.len());
        assert(idx as nat == old_hash % id_chars@.len());
        chars.push(id_chars[idx]);
        hash = hash / base;
        k += 1;
        proof {
            assert(symbol_seq(old_hash, id_chars@, (FINGERPRINT_LEN - (k - 1)) as nat) == seq![
                id_chars@[(old_hash % id_chars@.len()) as int],
            ] + symbol_seq(old_hash / id_chars@.len(), id_chars@, (FINGERPRINT_LEN - k) as nat));
            assert(hash as nat == old_hash / id_chars@.len());
            assert(chars@ =~= old_chars + seq![id_chars@[(old_hash % id_chars@.len()) as int]]);
            assert(old_chars + symbol_seq(old_hash, id_chars@, (FINGERPRINT_LEN - (k - 1)) as nat)
                =~= chars@ + symbol_seq(hash as nat, id_chars@, (FINGERPRINT_LEN - k) as nat));
        }
    }
    proof {
        assert(fingerprint_spec(s.spec_bytes(), id_chars@) =~= chars@);
        lemma_fingerprint_fixed_length(s.spec_bytes(), id_chars@);
    }
    chars
}

/// The fingerprint of a path given by its characters: the FNV-1a hash of its
/// UTF-8 bytes, rendered over the alphabet.
pub open spec fn path_fingerprint(path: Seq<char>, alphabet: Seq<char>) -> Seq<char> {
    fingerprint_spec(encode_utf8(path), alphabet)
}

/// Entry `i` collides at prefix length `len`: some other entry with a
/// distinct path has a fingerprint that agrees with entry `i`'s on the first
/// `len` symbols. Entries that repeat the very same path never collide with
/// each other.
pub open spec fn collides_at(paths: Seq<String>, alphabet: Seq<char>, i: int, len: int) -> bool {
    exists|j: int|
        0 <= j < paths.len() && j != i && paths[j]@ != paths[i]@ && path_fingerprint(
            paths[j]@,
            alphabet,
        ).take(len) == path_fingerprint(paths[i]@, alphabet).take(len)
}

/// The smallest length in `[from, FINGERPRINT_LEN]` at which entry `i` no
/// longer collides; the full fingerprint length if every length collides.
pub open spec fn display_len_from(paths: Seq<String>, alphabet: Seq<char>, i: int, from: int) -> int
    decreases FINGERPRINT_LEN - from,
{
    if from >= FINGERPRINT_LEN {
        FINGERPRINT_LEN as int
    } else if !collides_at(paths, alphabet, i, from) {
        from
    } else {
        display_len_from(paths, alphabet, i, from + 1)
    }
}

/// The length of entry `i`'s display id: the minimal collision-free prefix
/// length, starting the search at one symbol.
pub open spec fn display_len(paths: Seq<String>, alphabet: Seq<char>, i: int) -> int {
    display_len_from(paths, alphabet, i, 1)
}

/// The display length always lies between `from` and the fingerprint length.
pub proof fn lemma_display_len_from_bounds(
    paths: Seq<String>,
    alphabet: Seq<char>,
    i: int,
    from: int,
)
    requires
        1 <= from <= FINGERPRINT_LEN,
    ensures
        from <= display_len_from(paths, alphabet, i, from) <= FINGERPRINT_LEN,
    decreases FINGERPRINT_LEN - from,
{
    if from < FINGERPRINT_LEN && collides_at(paths, alphabet, i, from) {
        lemma_display_len_from_bounds(paths, alphabet, i, from + 1);
    }
}

/// Every length shorter than the chosen display length still collides.
proof fn lemma_display_len_from_collides(
    paths: Seq<String>,
    alphabet: Seq<char>,
    i: int,
    from: int,
    len: int,
)
    requires
        1 <= from <= FINGERPRINT_LEN,
        from <= len < display_len_from(paths, alphabet, i, from),
    ensures
        collides_at(paths, alphabet, i, len),
    decreases len - from,
{
    lemma_display_len_from_bounds(paths, alphabet, i, from);
    assert(from < FINGERPRINT_LEN);
    assert(collides_at(paths, alphabet, i, from));
    if len > from {
        lemma_display_len_from_collides(paths, alphabet, i, from + 1, len);
    }
}

/// Minimality of display ids: a display id longer than one symbol cannot be
/// shortened by one symbol without agreeing, at that shorter length, with
/// the fingerprint prefix of another entry holding a distinct path.
pub proof fn lemma_display_id_minimal(paths: Seq<String>, alphabet: Seq<char>, i: int)
    requires
        display_len(paths, alphabet, i) > 1,
    ensures
        collides_at(paths, alphabet, i, display_len(paths, alphabet, i) - 1),
{
    lemma_display_len_from_bounds(paths, alphabet, i, 1);
    lemma_display_len_from_collides(paths, alphabet, i, 1, display_len(paths, alphabet, i) - 1);
}

/// Do the first `len` characters of `a` and `b` agree?
fn prefixes_equal(a: &Vec<char>, b: &Vec<char>, len: usize) -> (r: bool)
    requires
        len <= a@.len(),
        len <= b@.len(),
    ensures
        r == (a@.take(len as int) == b@.take(len as int)),
{
    let mut k: usize = 0;
    while k < len
        invariant
            0 <= k <= len,
            len <= a@.len(),
            len <= b@.len(),
            forall|t: int| 0 <= t < k ==> a@[t] == b@[t],
        decreases len - k,
    {
        if a[k] != b[k] {
            proof {
                assert(a@.take(len as int)[k as int] != b@.take(len as int)[k as int]);
            }
            return false;
        }
        k += 1;
    }
    proof {
        assert(a@.take(len as int) =~= b@.take(len as int));
    }
    true
}

/// Does some other entry with a distinct path share entry `i`'s first `len`
/// fingerprint symbols?
fn has_collision(paths: &Vec<String>, fps: &Vec<Vec<char>>, i: usize, len: usize) -> (r: bool)
    requires
        fps@.len() == paths@.len(),
        i < paths@.len(),
        forall|k: int| 0 <= k < fps@.len() ==> (#[trigger] fps@[k])@.len() == FINGERPRINT_LEN,
        1 <= len <= FINGERPRINT_LEN,
    ensures
        r == exists|j: int|
            0 <= j < paths@.len() && j != i && paths@[j]@ != paths@[i as int]@
                && (#[trigger] fps@[j])@.take(len as int) == fps@[i as int]@.take(len as int),
{
    let n = paths.len();
    let mut j: usize = 0;
    while j < n
        invariant
            0 <= j <= n,
            n == paths@.len(),
            fps@.len() == paths@.len(),
            i < paths@.len(),
            forall|k: int| 0 <= k < fps@.len() ==> (#[trigger] fps@[k])@.len() == FINGERPRINT_LEN,
            1 <= len <= FINGERPRINT_LEN,
            forall|t: int|
                0 <= t < j ==> !(t != i && paths@[t]@ != paths@[i as int]@
                    && (#[trigger] fps@[t])@.take(len as int) == fps@[i as int]@.take(len as int)),
        decreases n - j,
    {
        if j != i && !str_eq(paths[j].as_str(), paths[i].as_str()) && prefixes_equal(
            &fps[j],
            &fps[i],
            len,
        ) {
            return true;
        }
        j += 1;
    }
    false
}

/// The equivalence between collisions stated over fingerprints already
/// computed into `fps` and collisions stated over `path_fingerprint`.
proof fn lemma_collides_equiv(
    paths: Seq<String>,
    alphabet: Seq<char>,
    fps: Seq<Vec<char>>,
    i: int,
    len: int,
)
    requires
        fps.len() == paths.len(),
        forall|k: int|
            0 <= k < fps.len() ==> (#[trigger] fps[k])@ == path_fingerprint(paths[k]@, alphabet),
        0 <= i < paths.len(),
    ensures
        collides_at(paths, alphabet, i, len) == (exists|j: int|
            0 <= j < paths.len() && j != i && paths[j]@ != paths[i]@
                && (#[trigger] fps[j])@.take(len) == fps[i]@.take(len)),
{
    if collides_at(paths, alphabet, i, len) {
        let j = choose|j: int|
            0 <= j < paths.len() && j != i && paths[j]@ != paths[i]@ && path_fingerprint(
                paths[j]@,
                alphabet,
            ).take(len) == path_fingerprint(paths[i]@, alphabet).take(len);
        assert(0 <= j < paths.len() && j != i && paths[j]@ != paths[i]@ && fps[j]@.take(len)
            == fps[i]@.take(len));
    }
    if exists|j: int|
        0 <= j < paths.len() && j != i && paths[j]@ != paths[i]@ && (#[trigger] fps[j])@.take(len)
            == fps[i]@.take(len) {
        let j = choose|j: int|
            0 <= j < paths.len() && j != i && paths[j]@ != paths[i]@
                && (#[trigger] fps[j])@.take(len) == fps[i]@.take(len);
        assert(0 <= j < paths.len() && j != i && paths[j]@ != paths[i]@ && path_fingerprint(
            paths[j]@,
            alphabet,
        ).take(len) == path_fingerprint(paths[i]@, alphabet).take(len));
    }
}

/// Assign every path its full fingerprint and its display id: the shortest
/// fingerprint prefix, never shorter than one symbol, that no other entry
/// with a distinct path shares at that length. Entries repeating the same
/// path string do not collide with each other. The result is a pair
/// `(display id, full fingerprint)` per path, in input order.
pub fn generate_ids(paths: &Vec<String>, id_chars: &Vec<char>) -> (ids: Vec<(String, String)>)
    requires
        id_chars@.len() >= 2,
    ensures
        ids@.len() == paths@.len(),
        forall|i: int|
            0 <= i < paths@.len() ==> (#[trigger] ids@[i]).1@ == path_fingerprint(
                paths@[i]@,
                id_chars@,
            ),
        forall|i: int|
            0 <= i < paths@.len() ==> (#[trigger] ids@[i]).0@ == path_fingerprint(
                paths@[i]@,
                id_chars@,
            ).take(display_len(paths@, id_chars@, i)),
{
    let n = paths.len();
    let mut fps: Vec<Vec<char>> = Vec::new();
    let mut i: usize = 0;
    while i < n
        invariant
            0 <= i <= n,
            n == paths@.len(),
            id_chars@.len() >= 2,
            fps@.len() == i,
            forall|k: int|
                0 <= k < i ==> (#[trigger] fps@[k])@ == path_fingerprint(paths@[k]@, id_chars@),
            forall|k: int| 0 <= k < i ==> (#[trigger] fps@[k])@.len() == FINGERPRINT_LEN,
        decreases n - i,
    {
        let fp = hash_to_id_chars(paths[i].as_str(), id_chars);
        fps.push(fp);
        i += 1;
    }
    let mut ids: Vec<(String, String)> = Vec::new();
    let mut i: usize = 0;
    while i < n
        invariant
            0 <= i <= n,
            n == paths@.len(),
            id_chars@.len() >= 2,
            fps@.len() == n,
            forall|k: int|
                0 <= k < n ==> (#[trigger] fps@[k])@ == path_fingerprint(paths@[k]@, id_chars@),
            forall|k: int| 0 <= k < n ==> (#[trigger] fps@[k])@.len() == FINGERPRINT_LEN,
            ids@.len() == i,
            forall|k: int|
                0 <= k < i ==> (#[trigger] ids@[k]).1@ == path_fingerprint(paths@[k]@, id_chars@),
            forall|k: int|
                0 <= k < i ==> (#[trigger] ids@[k]).0@ == path_fingerprint(
                    paths@[k]@,
                    id_chars@,
                ).take(display_len(paths@, id_chars@, k)),
        decreases n - i,
    {
        let mut len: usize = 1;
        while len < FINGERPRINT_LEN && has_collision(paths, &fps, i, len)
            invariant
                1 <= len <= FINGERPRINT_LEN,
                0 <= i < n,
                n == paths@.len(),
                id_chars@.len() >= 2,
                fps@.len() == n,
                forall|k: int|
                    0 <= k < n ==> (#[trigger] fps@[k])@ == path_fingerprint(paths@[k]@, id_chars@),
                forall|k: int| 0 <= k < n ==> (#[trigger] fps@[k])@.len() == FINGERPRINT_LEN,
                display_len(paths@, id_chars@, i as int) == display_len_from(
                    paths@,
                    id_chars@,
                    i as int,
                    len as int,
                ),
            decreases FINGERPRINT_LEN - len,
        {
            proof {
                lemma_collides_equiv(paths@, id_chars@, fps@, i as int, len as int);
                assert(collides_at(paths@, id_chars@, i as int, len as int));
            }
            len += 1;
        }
        proof {
            if len < FINGERPRINT_LEN {
                lemma_collides_equiv(paths@, id_chars@, fps@, i as int, len as int);
                assert(!collides_at(paths@, id_chars@, i as int, len as int));
            }
            assert(display_len(paths@, id_chars@, i as int) == len as int);
        }
        let display = chars_to_string(&fps[i], len);
        let full = chars_to_string(&fps[i], FINGERPRINT_LEN);
        proof {
            assert(fps@[i as int]@.take(FINGERPRINT_LEN as int) =~= fps@[i as int]@);
        }
        ids.push((display, full));
        i += 1;
    }
    ids
}

} // verus!
