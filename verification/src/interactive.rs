//! The ephemeral key generator and the narrowing state machine.
//!
//! For one interactive selection session, every entry of the current list
//! gets a fixed-length key assigned by position: index `i` written as a
//! base-`|alphabet|` number, most significant digit first. The narrowing
//! machine consumes one keystroke at a time: it selects the entry whose key
//! the typed prefix completes, discards a prefix no key continues, and
//! cancels on anything outside the alphabet.

use crate::text::is_prefix_of;
use crate::text::str_eq;
use crate::text::str_starts_with;
use vstd::arithmetic::div_mod::lemma_fundamental_div_mod;
use vstd::arithmetic::div_mod::lemma_multiply_divide_lt;
use vstd::arithmetic::mul::lemma_mul_inequality;
use vstd::arithmetic::power::lemma_pow_positive;
use vstd::arithmetic::power::pow;
use vstd::prelude::*;
use vstd::string::*;

verus! {

/// No character of the alphabet repeats.
pub open spec fn alphabet_distinct(alphabet: Seq<char>) -> bool {
    forall|x: int, y: int| 0 <= x < y < alphabet.len() ==> alphabet[x] != alphabet[y]
}

/// The key of entry `index`: its `len` least significant base-`|alphabet|`
/// digits, most significant first, each mapped through the alphabet.
pub open spec fn key_chars(index: nat, alphabet: Seq<char>, len: nat) -> Seq<char>
    decreases len,
{
    if len == 0 {
        Seq::empty()
    } else {
        key_chars(index / alphabet.len(), alphabet, (len - 1) as nat).push(
            alphabet[(index % alphabet.len()) as int],
        )
    }
}

/// For a base of at least two, the power outgrows the exponent.
proof fn lemma_pow_exceeds_exponent(b: nat, e: nat)
    requires
        b >= 2,
    ensures
        pow(b as int, e) >= e + 1,
    decreases e,
{
    reveal(pow);
    if e > 0 {
        lemma_pow_exceeds_exponent(b, (e - 1) as nat);
        lemma_pow_positive(b as int, (e - 1) as nat);
        assert(pow(b as int, e) == b * pow(b as int, (e - 1) as nat));
        lemma_mul_inequality(2, b as int, pow(b as int, (e - 1) as nat));
        assert(2 * pow(b as int, (e - 1) as nat) >= 2 * e) by {
            lemma_mul_inequality(e as int, pow(b as int, (e - 1) as nat), 2);
        }
    }
}

/// The smallest length, at least `len`, whose key space over a base-`b`
/// alphabet covers `n` entries.
pub open spec fn key_len_from(n: nat, b: nat, len: nat) -> nat
    decreases n - len,
        when b >= 2
    via key_len_from_decreases
{
    if pow(b as int, len) >= n {
        len
    } else {
        key_len_from(n, b, (len + 1) as nat)
    }
}

#[via_fn]
proof fn key_len_from_decreases(n: nat, b: nat, len: nat) {
    reveal(pow);
    if pow(b as int, len) < n {
        lemma_pow_exceeds_exponent(b, len);
    }
}

/// The key length for `n` entries: the smallest positive length whose key
/// space covers them.
pub open spec fn key_len(n: nat, b: nat) -> nat {
    key_len_from(n, b, 1)
}

/// The chosen key length is minimal: its key space covers `n`, and one
/// symbol fewer would not, unless the length is already one.
pub proof fn lemma_key_len_minimal(n: nat, b: nat, len: nat)
    requires
        b >= 2,
        len >= 1,
    ensures
        key_len_from(n, b, len) >= len,
        pow(b as int, key_len_from(n, b, len)) >= n,
        key_len_from(n, b, len) > len ==> pow(b as int, (key_len_from(n, b, len) - 1) as nat) < n,
    decreases n - len,
{
    if pow(b as int, len) < n {
        lemma_pow_exceeds_exponent(b, len);
        lemma_key_len_minimal(n, b, (len + 1) as nat);
    }
}

/// Keys of distinct indices within the key space differ.
pub proof fn lemma_keys_distinct(alphabet: Seq<char>, len: nat, i: nat, j: nat)
    requires
        alphabet.len() >= 2,
        alphabet_distinct(alphabet),
        i < pow(alphabet.len() as int, len),
        j < pow(alphabet.len() as int, len),
        i != j,
    ensures
        key_chars(i, alphabet, len) != key_chars(j, alphabet, len),
    decreases len,
{
    reveal(pow);
    let b = alphabet.len();
    if len == 0 {
        assert(pow(b as int, 0) == 1);
    } else {
        let ki = key_chars(i, alphabet, len);
        let kj = key_chars(j, alphabet, len);
        let ri = key_chars(i / b, alphabet, (len - 1) as nat);
        let rj = key_chars(j / b, alphabet, (len - 1) as nat);
        assert(ki == ri.push(alphabet[(i % b) as int]));
        assert(kj == rj.push(alphabet[(j % b) as int]));
        lemma_pow_positive(b as int, (len - 1) as nat);
        assert(pow(b as int, len) == b * pow(b as int, (len - 1) as nat));
        lemma_multiply_divide_lt(i as int, b as int, pow(b as int, (len - 1) as nat));
        lemma_multiply_divide_lt(j as int, b as int, pow(b as int, (len - 1) as nat));
        if i % b != j % b {
            assert(ki.last() != kj.last());
        } else {
            lemma_fundamental_div_mod(i as int, b as int);
            lemma_fundamental_div_mod(j as int, b as int);
            assert(i / b != j / b);
            lemma_keys_distinct(alphabet, (len - 1) as nat, i / b, j / b);
            assert(ki.drop_last() =~= ri);
            assert(kj.drop_last() =~= rj);
            assert(ki.drop_last() != kj.drop_last());
        }
    }
}

/// Every key has exactly the requested number of symbols.
pub proof fn lemma_key_chars_len(index: nat, alphabet: Seq<char>, len: nat)
    requires
        alphabet.len() >= 1,
    ensures
        key_chars(index, alphabet, len).len() == len,
    decreases len,
{
    if len > 0 {
        lemma_key_chars_len(index / alphabet.len(), alphabet, (len - 1) as nat);
    }
}

/// Every symbol of a key is drawn from the alphabet.
pub proof fn lemma_key_chars_in_alphabet(index: nat, alphabet: Seq<char>, len: nat)
    requires
        alphabet.len() >= 1,
    ensures
        forall|t: int|
            0 <= t < key_chars(index, alphabet, len).len() ==> alphabet.contains(
                #[trigger] key_chars(index, alphabet, len)[t],
            ),
    decreases len,
{
    if len > 0 {
        let rest = key_chars(index / alphabet.len(), alphabet, (len - 1) as nat);
        let c = alphabet[(index % alphabet.len()) as int];
        lemma_key_chars_in_alphabet(index / alphabet.len(), alphabet, (len - 1) as nat);
        assert(alphabet.contains(c));
        assert(forall|t: int|
            0 <= t < rest.len() ==> #[trigger] rest.push(c)[t] == rest[t]);
        assert(rest.push(c)[rest.len() as int] == c);
    }
}

/// Key bijection for a generated set: any two distinct indices below `n`
/// get distinct keys of the chosen length.
pub proof fn lemma_key_bijection(n: nat, alphabet: Seq<char>, i: nat, j: nat)
    requires
        alphabet.len() >= 2,
        alphabet_distinct(alphabet),
        i < n,
        j < n,
        i != j,
    ensures
        key_chars(i, alphabet, key_len(n, alphabet.len())) != key_chars(
            j,
            alphabet,
            key_len(n, alphabet.len()),
        ),
{
    lemma_key_len_minimal(n, alphabet.len(), 1);
    lemma_keys_distinct(alphabet, key_len(n, alphabet.len()), i, j);
}

/// Generate `n` ephemeral keys over the alphabet, assigned by position: the
/// shortest fixed length whose key space covers `n`, and for each index its
/// base-`|alphabet|` digits, most significant first.
pub fn generate_keys(n: usize, id_chars: &Vec<char>) -> (keys: Vec<String>)
    requires
        id_chars@.len() >= 2,
    ensures
        keys@.len() == n,
        forall|i: int|
            0 <= i < n ==> (#[trigger] keys@[i])@ == key_chars(
                i as nat,
                id_chars@,
                key_len(n as nat, id_chars@.len()),
            ),
{
    if n == 0 {
        return Vec::new();
    }
    let b = id_chars.len();
    let b_wide = b as u128;
    let mut len: usize = 1;
    let mut p: u128 = b_wide;
    proof {
        reveal(pow);
        assert(pow(b as int, 1) == b * pow(b as int, 0));
    }
    while p < n as u128
        invariant
            1 <= len,
            b == id_chars@.len(),
            b >= 2,
            b_wide == b as u128,
            n as u128 <= u64::MAX as u128,
            p as int == pow(b as int, len as nat),
            p >= 2,
            key_len(n as nat, b as nat) == key_len_from(n as nat, b as nat, len as nat),
        decreases n as int - len as int,
    {
        proof {
            reveal(pow);
            lemma_pow_exceeds_exponent(b as nat, len as nat);
            assert(len + 1 < n);
            assert(pow(b as int, (len + 1) as nat) == b * pow(b as int, len as nat));
            assert((p as int) * (b as int) <= (u64::MAX as int) * (u64::MAX as int)) by {
                lemma_mul_inequality(p as int, u64::MAX as int, b as int);
                lemma_mul_inequality(b as int, u64::MAX as int, u64::MAX as int);
            }
            assert((b as int) * (p as int) == (p as int) * (b as int)) by {
                vstd::arithmetic::mul::lemma_mul_is_commutative(b as int, p as int);
            }
            assert(2 * (p as int) <= (p as int) * (b as int)) by {
                lemma_mul_inequality(2, b as int, p as int);
                vstd::arithmetic::mul::lemma_mul_is_commutative(2, p as int);
            }
        }
        p = p * b_wide;
        len += 1;
    }
    proof {
        assert(key_len_from(n as nat, b as nat, len as nat) == len as nat);
    }
    let mut keys: Vec<String> = Vec::new();
    let mut i: usize = 0;
    while i < n
        invariant
            0 <= i <= n,
            b == id_chars@.len(),
            b >= 2,
            keys@.len() == i,
            key_len(n as nat, b as nat) == len as nat,
            forall|t: int|
                0 <= t < i ==> (#[trigger] keys@[t])@ == key_chars(t as nat, id_chars@, len as nat),
        decreases n - i,
    {
        let mut rev: Vec<char> = Vec::new();
        let mut idx: usize = i;
        let mut t: usize = 0;
        while t < len
            invariant
                0 <= t <= len,
                b == id_chars@.len(),
                b >= 2,
                rev@.len() == t,
                key_chars(i as nat, id_chars@, len as nat) == key_chars(
                    idx as nat,
                    id_chars@,
                    (len - t) as nat,
                ) + rev@.reverse(),
            decreases len - t,
        {
            let ghost old_rev = rev@;
            let ghost old_idx = idx as nat;
            let d = idx % b;
            assert(d < id_chars@.len());
            rev.push(id_chars[d]);
            idx = idx / b;
            t += 1;
            proof {
                let a = id_chars@;
                let x = a[(old_idx % a.len()) as int];
                assert(key_chars(old_idx, a, (len - (t - 1)) as nat) == key_chars(
                    old_idx / a.len(),
                    a,
                    (len - t) as nat,
                ).push(x));
                assert(rev@ =~= old_rev.push(x));
                assert(rev@.reverse() =~= seq![x] + old_rev.reverse());
                assert(key_chars(idx as nat, a, (len - t) as nat) + rev@.reverse() =~= (key_chars(
                    idx as nat,
                    a,
                    (len - t) as nat,
                ).push(x)) + old_rev.reverse());
            }
        }
        proof {
            assert(key_chars(idx as nat, id_chars@, 0) == Seq::<char>::empty());
            assert(key_chars(i as nat, id_chars@, len as nat) =~= rev@.reverse());
            assert(rev@.reverse().len() == len);
        }
        let mut key = String::new();
        let mut k: usize = 0;
        while k < len
            invariant
                0 <= k <= len,
                rev@.len() == len,
                key@ =~= rev@.reverse().take(k as int),
            decreases len - k,
        {
            key.push(rev[len - 1 - k]);
            k += 1;
            proof {
                assert(rev@.reverse()[k - 1] == rev@[len - k]);
                assert(key@ =~= rev@.reverse().take(k as int));
            }
        }
        proof {
            assert(key@ =~= rev@.reverse());
        }
        keys.push(key);
        i += 1;
    }
    keys
}

/// Events driving the narrowing state machine.
pub enum NarrowEvent {
    Key(char),
    Clear,
    Cancel,
}

/// The narrowing state: collecting a typed prefix, a selected entry index
/// (terminal), or cancelled (terminal).
pub enum NarrowState {
    Collecting(String),
    Selected(usize),
    Cancelled,
}

/// The mathematical model of a narrowing state.
pub enum NarrowModel {
    Collecting(Seq<char>),
    Selected(int),
    Cancelled,
}

impl View for NarrowState {
    type V = NarrowModel;

    open spec fn view(&self) -> NarrowModel {
        match self {
            NarrowState::Collecting(p) => NarrowModel::Collecting(p@),
            NarrowState::Selected(i) => NarrowModel::Selected(*i as int),
            NarrowState::Cancelled => NarrowModel::Cancelled,
        }
    }
}

/// The character sequences of a key list.
pub open spec fn keys_view(keys: Seq<String>) -> Seq<Seq<char>> {
    keys.map_values(|k: String| k@)
}

/// Index of the first key equal to `q`, or -1 when none is.
pub open spec fn first_key_index(keys: Seq<Seq<char>>, q: Seq<char>) -> int
    decreases keys.len(),
{
    if keys.len() == 0 {
        -1
    } else if keys.first() == q {
        0
    } else if first_key_index(keys.drop_first(), q) == -1 {
        -1
    } else {
        first_key_index(keys.drop_first(), q) + 1
    }
}

/// Some key starts with `q`.
pub open spec fn some_key_has_prefix(keys: Seq<Seq<char>>, q: Seq<char>) -> bool {
    exists|i: int| 0 <= i < keys.len() && is_prefix_of(q, #[trigger] keys[i])
}

/// One transition on a typed character: select the entry whose key the new
/// prefix completes; keep collecting while some key continues it; start
/// over when none does; cancel on a character outside the alphabet.
pub open spec fn narrow_key_model(
    p: Seq<char>,
    keys: Seq<Seq<char>>,
    alphabet: Seq<char>,
    c: char,
) -> NarrowModel {
    if !alphabet.contains(c) {
        NarrowModel::Cancelled
    } else {
        let q = p.push(c);
        if first_key_index(keys, q) >= 0 {
            NarrowModel::Selected(first_key_index(keys, q))
        } else if some_key_has_prefix(keys, q) {
            NarrowModel::Collecting(q)
        } else {
            NarrowModel::Collecting(Seq::empty())
        }
    }
}

/// One transition of the narrowing machine. Terminal states absorb every
/// event; a collecting state reacts to a key, a clear, or a cancel.
pub open spec fn narrow_step_model(
    m: NarrowModel,
    keys: Seq<Seq<char>>,
    alphabet: Seq<char>,
    e: NarrowEvent,
) -> NarrowModel {
    match m {
        NarrowModel::Collecting(p) => match e {
            NarrowEvent::Key(c) => narrow_key_model(p, keys, alphabet, c),
            NarrowEvent::Clear => NarrowModel::Collecting(Seq::empty()),
            NarrowEvent::Cancel => NarrowModel::Cancelled,
        },
        _ => m,
    }
}

proof fn lemma_first_key_index_at(keys: Seq<Seq<char>>, q: Seq<char>, i: int)
    requires
        0 <= i < keys.len(),
        keys[i] == q,
        forall|t: int| 0 <= t < i ==> keys[t] != q,
    ensures
        first_key_index(keys, q) == i,
    decreases keys.len(),
{
    if i > 0 {
        lemma_first_key_index_at(keys.drop_first(), q, i - 1);
    }
}

proof fn lemma_first_key_index_none(keys: Seq<Seq<char>>, q: Seq<char>)
    requires
        forall|t: int| 0 <= t < keys.len() ==> keys[t] != q,
    ensures
        first_key_index(keys, q) == -1,
    decreases keys.len(),
{
    if keys.len() > 0 {
        lemma_first_key_index_none(keys.drop_first(), q);
    }
}

/// Does the alphabet contain the character?
fn alphabet_contains(id_chars: &Vec<char>, c: char) -> (r: bool)
    ensures
        r == id_chars@.contains(c),
{
    let n = id_chars.len();
    let mut j: usize = 0;
    while j < n
        invariant
            0 <= j <= n,
            n == id_chars@.len(),
            forall|t: int| 0 <= t < j ==> id_chars@[t] != c,
        decreases n - j,
    {
        if id_chars[j] == c {
            return true;
        }
        j += 1;
    }
    false
}

/// One step of the narrowing machine on the generated keys. A typed
/// alphabet character extends the prefix: it selects the first key it
/// completes, keeps collecting while some key continues it, and resets the
/// prefix when none does. A character outside the alphabet cancels; clear
/// resets; terminal states absorb every event.
#[verifier::loop_isolation(false)]
pub fn narrow_step(
    state: NarrowState,
    keys: &Vec<String>,
    id_chars: &Vec<char>,
    event: NarrowEvent,
) -> (r: NarrowState)
    ensures
        r@ == narrow_step_model(state@, keys_view(keys@), id_chars@, event),
{
    match state {
        NarrowState::Collecting(prefix) => match event {
            NarrowEvent::Key(c) => {
                if !alphabet_contains(id_chars, c) {
                    return NarrowState::Cancelled;
                }
                let ghost p0 = prefix@;
                let mut q = prefix;
                q.push(c);
                proof {
                    assert(q@ == p0.push(c));
                    assert(forall|t: int|
                        0 <= t < keys@.len() ==> keys_view(keys@)[t] == (#[trigger] keys@[t])@);
                }
                let n = keys.len();
                let mut j: usize = 0;
                while j < n
                    invariant
                        0 <= j <= n,
                        n == keys@.len(),
                        q@ == p0.push(c),
                        forall|t: int| 0 <= t < j ==> (#[trigger] keys@[t])@ != q@,
                    decreases n - j,
                {
                    if str_eq(keys[j].as_str(), q.as_str()) {
                        proof {
                            assert(forall|t: int|
                                0 <= t < keys@.len() ==> keys_view(keys@)[t] == (
                                #[trigger] keys@[t])@);
                            lemma_first_key_index_at(keys_view(keys@), q@, j as int);
                        }
                        return NarrowState::Selected(j);
                    }
                    j += 1;
                }
                proof {
                    assert(forall|t: int|
                        0 <= t < keys@.len() ==> keys_view(keys@)[t] == (#[trigger] keys@[t])@);
                    lemma_first_key_index_none(keys_view(keys@), q@);
                }
                let mut j: usize = 0;
                while j < n
                    invariant
                        0 <= j <= n,
                        n == keys@.len(),
                        q@ == p0.push(c),
                        first_key_index(keys_view(keys@), q@) == -1,
                        forall|t: int| 0 <= t < j ==> !is_prefix_of(q@, (#[trigger] keys@[t])@),
                    decreases n - j,
                {
                    if str_starts_with(keys[j].as_str(), q.as_str()) {
                        proof {
                            assert(forall|t: int|
                                0 <= t < keys@.len() ==> keys_view(keys@)[t] == (
                                #[trigger] keys@[t])@);
                            assert(is_prefix_of(q@, keys_view(keys@)[j as int]));
                        }
                        return NarrowState::Collecting(q);
                    }
                    j += 1;
                }
                proof {
                    assert(forall|t: int|
                        0 <= t < keys@.len() ==> keys_view(keys@)[t] == (#[trigger] keys@[t])@);
                    assert(!some_key_has_prefix(keys_view(keys@), q@));
                }
                NarrowState::Collecting(String::new())
            },
            NarrowEvent::Clear => NarrowState::Collecting(String::new()),
            NarrowEvent::Cancel => NarrowState::Cancelled,
        },
        NarrowState::Selected(i) => NarrowState::Selected(i),
        NarrowState::Cancelled => NarrowState::Cancelled,
    }
}

/// The state after feeding the machine the characters of `cs`, in order.
pub open spec fn run_narrow(
    m: NarrowModel,
    keys: Seq<Seq<char>>,
    alphabet: Seq<char>,
    cs: Seq<char>,
) -> NarrowModel
    decreases cs.len(),
{
    if cs.len() == 0 {
        m
    } else {
        run_narrow(
            narrow_step_model(m, keys, alphabet, NarrowEvent::Key(cs.first())),
            keys,
            alphabet,
            cs.drop_first(),
        )
    }
}

proof fn lemma_narrow_progress(keys: Seq<Seq<char>>, alphabet: Seq<char>, idx: int, t: int)
    requires
        0 <= idx < keys.len(),
        keys[idx].len() >= 1,
        forall|i: int| 0 <= i < keys.len() ==> (#[trigger] keys[i]).len() == keys[idx].len(),
        forall|i: int, j: int| 0 <= i < j < keys.len() ==> keys[i] != keys[j],
        forall|k: int| 0 <= k < keys[idx].len() ==> alphabet.contains(#[trigger] keys[idx][k]),
        0 <= t < keys[idx].len(),
    ensures
        run_narrow(
            NarrowModel::Collecting(keys[idx].take(t)),
            keys,
            alphabet,
            keys[idx].skip(t),
        ) == NarrowModel::Selected(idx),
    decreases keys[idx].len() - t,
{
    let key = keys[idx];
    let len = key.len() as int;
    let cs = key.skip(t);
    let c = cs.first();
    assert(c == key[t]);
    assert(alphabet.contains(c));
    let q = key.take(t).push(c);
    assert(q =~= key.take(t + 1));
    let stepped = narrow_step_model(
        NarrowModel::Collecting(key.take(t)),
        keys,
        alphabet,
        NarrowEvent::Key(c),
    );
    assert(run_narrow(NarrowModel::Collecting(key.take(t)), keys, alphabet, cs) == run_narrow(
        stepped,
        keys,
        alphabet,
        cs.drop_first(),
    ));
    assert(cs.drop_first() =~= key.skip(t + 1));
    if t + 1 == len {
        assert(q =~= key);
        assert(forall|u: int| 0 <= u < idx ==> keys[u] != q);
        lemma_first_key_index_at(keys, q, idx);
        assert(stepped == NarrowModel::Selected(idx));
        assert(key.skip(t + 1).len() == 0);
        assert(run_narrow(NarrowModel::Selected(idx), keys, alphabet, key.skip(t + 1))
            == NarrowModel::Selected(idx));
    } else {
        assert(forall|u: int| 0 <= u < keys.len() ==> keys[u] != q) by {
            assert(forall|u: int| 0 <= u < keys.len() ==> (#[trigger] keys[u]).len() == len);
            assert(q.len() == t + 1 < len);
        }
        lemma_first_key_index_none(keys, q);
        assert(is_prefix_of(q, key)) by {
            assert(q =~= key.subrange(0, t + 1));
        }
        assert(some_key_has_prefix(keys, q));
        assert(stepped == NarrowModel::Collecting(key.take(t + 1)));
        lemma_narrow_progress(keys, alphabet, idx, t + 1);
        assert(run_narrow(NarrowModel::Collecting(key.take(t + 1)), keys, alphabet, key.skip(t + 1))
            == NarrowModel::Selected(idx));
    }
}

/// Narrowing termination over a generated key set: starting from an empty
/// prefix, typing exactly the characters of the key of entry `idx` selects
/// entry `idx`. The keys are those `generate_keys` assigns for `n` entries
/// over a duplicate-free alphabet.
pub proof fn lemma_generated_keys_select(n: nat, alphabet: Seq<char>, idx: int)
    requires
        alphabet.len() >= 2,
        alphabet_distinct(alphabet),
        0 <= idx < n,
    ensures
        ({
            let len = key_len(n, alphabet.len());
            let keys = Seq::new(n, |i: int| key_chars(i as nat, alphabet, len));
            run_narrow(
                NarrowModel::Collecting(Seq::empty()),
                keys,
                alphabet,
                keys[idx],
            ) == NarrowModel::Selected(idx)
        }),
{
    let len = key_len(n, alphabet.len());
    let keys = Seq::new(n, |i: int| key_chars(i as nat, alphabet, len));
    lemma_key_len_minimal(n, alphabet.len(), 1);
    assert forall|i: int| 0 <= i < keys.len() implies (#[trigger] keys[i]).len()
        == keys[idx].len() by {
        lemma_key_chars_len(i as nat, alphabet, len);
        lemma_key_chars_len(idx as nat, alphabet, len);
    }
    assert forall|i: int, j: int| 0 <= i < j < keys.len() implies keys[i] != keys[j] by {
        lemma_key_bijection(n, alphabet, i as nat, j as nat);
    }
    lemma_key_chars_len(idx as nat, alphabet, len);
    lemma_key_chars_in_alphabet(idx as nat, alphabet, len);
    lemma_narrowing_selects(keys, alphabet, idx);
}

/// Narrowing termination: starting from an empty prefix, typing exactly the
/// characters of one generated key selects that key's entry. The keys must
/// be of one fixed length, pairwise distinct, and drawn from the alphabet —
/// exactly what `generate_keys` produces.
pub proof fn lemma_narrowing_selects(keys: Seq<Seq<char>>, alphabet: Seq<char>, idx: int)
    requires
        0 <= idx < keys.len(),
        keys[idx].len() >= 1,
        forall|i: int| 0 <= i < keys.len() ==> (#[trigger] keys[i]).len() == keys[idx].len(),
        forall|i: int, j: int| 0 <= i < j < keys.len() ==> keys[i] != keys[j],
        forall|k: int| 0 <= k < keys[idx].len() ==> alphabet.contains(#[trigger] keys[idx][k]),
    ensures
        run_narrow(
            NarrowModel::Collecting(Seq::empty()),
            keys,
            alphabet,
            keys[idx],
        ) == NarrowModel::Selected(idx),
{
    assert(keys[idx].take(0) =~= Seq::<char>::empty());
    assert(keys[idx].skip(0) =~= keys[idx]);
    lemma_narrow_progress(keys, alphabet, idx, 0);
}

} // verus!
