//! Comparing names and identifiers.
//!
//! Identifiers are ordered as Rust orders `str`: by the bytes of their
//! UTF-8 encoding, lexicographically.

use vstd::prelude::*;
use vstd::string::StringSliceAdditionalSpecFns;
use vstd::utf8::*;

verus! {

/// `a` comes before `b` in lexicographic order, looking only at the
/// positions from `from` on.
pub open spec fn bytes_less_from(a: Seq<u8>, b: Seq<u8>, from: int) -> bool
    decreases a.len() - from,
{
    if from >= b.len() {
        false
    } else if from >= a.len() {
        true
    } else if a[from] != b[from] {
        a[from] < b[from]
    } else {
        bytes_less_from(a, b, from + 1)
    }
}

/// The order of identifiers: lexicographic on the UTF-8 encoding.
pub open spec fn text_less(a: Seq<char>, b: Seq<char>) -> bool {
    bytes_less_from(encode_utf8(a), encode_utf8(b), 0)
}

/// Nothing comes before itself.
pub proof fn lemma_bytes_less_irreflexive(a: Seq<u8>, from: int)
    requires
        0 <= from,
    ensures
        !bytes_less_from(a, a, from),
    decreases a.len() - from,
{
    if from < a.len() {
        lemma_bytes_less_irreflexive(a, from + 1);
    }
}

/// The order is transitive.
pub proof fn lemma_bytes_less_transitive(a: Seq<u8>, b: Seq<u8>, c: Seq<u8>, from: int)
    requires
        0 <= from,
        bytes_less_from(a, b, from),
        bytes_less_from(b, c, from),
    ensures
        bytes_less_from(a, c, from),
    decreases a.len() - from,
{
    if from < a.len() && a[from] == b[from] && b[from] == c[from] {
        lemma_bytes_less_transitive(a, b, c, from + 1);
    }
}

/// Two byte strings that agree before `from` are equal, or one comes
/// before the other.
pub proof fn lemma_bytes_less_total(a: Seq<u8>, b: Seq<u8>, from: int)
    requires
        0 <= from <= a.len(),
        from <= b.len(),
        forall|j: int| 0 <= j < from ==> a[j] == b[j],
    ensures
        bytes_less_from(a, b, from) || bytes_less_from(b, a, from) || a == b,
    decreases a.len() - from,
{
    if from < a.len() && from < b.len() && a[from] == b[from] {
        lemma_bytes_less_total(a, b, from + 1);
    } else if from == a.len() && from == b.len() {
        assert(a =~= b);
    }
}

/// Two texts with the same UTF-8 encoding are the same text.
pub proof fn lemma_encoding_injective(a: Seq<char>, b: Seq<char>)
    requires
        encode_utf8(a) == encode_utf8(b),
    ensures
        a == b,
{
    encode_utf8_decode_utf8(a);
    encode_utf8_decode_utf8(b);
}

/// No identifier comes before itself.
pub proof fn lemma_text_less_irreflexive(a: Seq<char>)
    ensures
        !text_less(a, a),
{
    lemma_bytes_less_irreflexive(encode_utf8(a), 0);
}

/// The order of identifiers is transitive.
pub proof fn lemma_text_less_transitive(a: Seq<char>, b: Seq<char>, c: Seq<char>)
    requires
        text_less(a, b),
        text_less(b, c),
    ensures
        text_less(a, c),
{
    lemma_bytes_less_transitive(encode_utf8(a), encode_utf8(b), encode_utf8(c), 0);
}

/// Of two different identifiers one comes before the other.
pub proof fn lemma_text_less_total(a: Seq<char>, b: Seq<char>)
    ensures
        text_less(a, b) || text_less(b, a) || a == b,
{
    lemma_bytes_less_total(encode_utf8(a), encode_utf8(b), 0);
    if encode_utf8(a) == encode_utf8(b) {
        lemma_encoding_injective(a, b);
    }
}

/// Whether two strings hold the same text.
pub fn str_eq(a: &str, b: &str) -> (same: bool)
    ensures
        same == (a@ == b@),
{
    let x = a.as_bytes();
    let y = b.as_bytes();
    if x.len() != y.len() {
        return false;
    }
    let mut i: usize = 0;
    while i < x.len()
        invariant
            i <= x.len(),
            x.len() == y.len(),
            x@ == encode_utf8(a@),
            y@ == encode_utf8(b@),
            forall|j: int| 0 <= j < i ==> x@[j] == y@[j],
        decreases x.len() - i,
    {
        if x[i] != y[i] {
            return false;
        }
        i += 1;
    }
    proof {
        assert(x@ =~= y@);
        lemma_encoding_injective(a@, b@);
    }
    true
}

/// Whether `a` comes before `b` in the order of identifiers.
pub fn str_less(a: &str, b: &str) -> (before: bool)
    ensures
        before == text_less(a@, b@),
{
    let x = a.as_bytes();
    let y = b.as_bytes();
    let mut i: usize = 0;
    while i < x.len() && i < y.len()
        invariant
            i <= x.len(),
            i <= y.len(),
            x@ == encode_utf8(a@),
            y@ == encode_utf8(b@),
            bytes_less_from(x@, y@, 0) == bytes_less_from(x@, y@, i as int),
        decreases x.len() - i,
    {
        if x[i] != y[i] {
            return x[i] < y[i];
        }
        i += 1;
    }
    i < y.len()
}

/// Whether a row of keys is in ascending order, without repetition.
pub open spec fn ascending(keys: Seq<Seq<char>>) -> bool {
    forall|i: int, j: int|
        #![trigger keys[i], keys[j]]
        0 <= i < j < keys.len() ==> text_less(keys[i], keys[j])
}

/// The first position at or after `from` whose key does not come before
/// `key`.
pub open spec fn rank_from(keys: Seq<Seq<char>>, key: Seq<char>, from: int) -> int
    decreases keys.len() - from,
{
    if from < 0 || from >= keys.len() || !text_less(keys[from], key) {
        from
    } else {
        rank_from(keys, key, from + 1)
    }
}

/// The position at which `key` stands in a row of keys or would be put:
/// the first whose key does not come before it.
pub open spec fn rank(keys: Seq<Seq<char>>, key: Seq<char>) -> int {
    rank_from(keys, key, 0)
}

/// Every key before the rank comes before `key`, and the key at the rank
/// does not.
pub proof fn lemma_rank(keys: Seq<Seq<char>>, key: Seq<char>, from: int)
    requires
        0 <= from <= keys.len(),
    ensures
        from <= rank_from(keys, key, from) <= keys.len(),
        forall|j: int| from <= j < rank_from(keys, key, from) ==> text_less(#[trigger] keys[j], key),
        rank_from(keys, key, from) < keys.len() ==> !text_less(
            keys[rank_from(keys, key, from)],
            key,
        ),
    decreases keys.len() - from,
{
    if from < keys.len() && text_less(keys[from], key) {
        lemma_rank(keys, key, from + 1);
    }
}

/// The rank is the one position that parts the keys that come before
/// `key` from one that does not.
pub proof fn lemma_rank_is(keys: Seq<Seq<char>>, key: Seq<char>, p: int)
    requires
        0 <= p <= keys.len(),
        forall|j: int| 0 <= j < p ==> text_less(#[trigger] keys[j], key),
        p < keys.len() ==> !text_less(keys[p], key),
    ensures
        rank(keys, key) == p,
{
    lemma_rank(keys, key, 0);
    let r = rank(keys, key);
    if r < p {
        assert(text_less(keys[r], key));
    } else if r > p {
        assert(text_less(keys[p], key));
    }
}

/// In an ascending row, `key` stands at its rank or nowhere, and every
/// key from the rank on that is not `key` comes after it.
pub proof fn lemma_rank_finds(keys: Seq<Seq<char>>, key: Seq<char>)
    requires
        ascending(keys),
    ensures
        forall|i: int| 0 <= i < keys.len() && #[trigger] keys[i] == key ==> rank(keys, key) == i,
        forall|i: int|
            rank(keys, key) <= i < keys.len() && #[trigger] keys[i] != key ==> text_less(
                key,
                keys[i],
            ),
{
    let p = rank(keys, key);
    lemma_rank(keys, key, 0);
    lemma_text_less_irreflexive(key);
    assert forall|i: int| 0 <= i < keys.len() && #[trigger] keys[i] == key implies p == i by {
        if i < p {
            assert(text_less(keys[i], key));
        } else if i > p {
            assert(text_less(keys[p], keys[i]));
        }
    }
    assert forall|i: int| p <= i < keys.len() && #[trigger] keys[i] != key implies text_less(
        key,
        keys[i],
    ) by {
        lemma_text_less_total(key, keys[i]);
        if text_less(keys[i], key) {
            if i > p {
                assert(text_less(keys[p], keys[i]));
                lemma_text_less_transitive(keys[p], keys[i], key);
            }
        }
    }
}

/// A value that is kept in order by a text.
pub trait TextKeyed {
    /// The text that the value is ordered by.
    spec fn spec_key(&self) -> Seq<char>;

    /// The text that the value is ordered by.
    fn key(&self) -> (key: &str)
        ensures
            key@ == self.spec_key(),
    ;
}

impl TextKeyed for String {
    open spec fn spec_key(&self) -> Seq<char> {
        self@
    }

    fn key(&self) -> (key: &str) {
        self.as_str()
    }
}

/// The keys of a row of values.
pub open spec fn keys_of<T: TextKeyed>(rows: Seq<T>) -> Seq<Seq<char>> {
    Seq::new(rows.len(), |i: int| rows[i].spec_key())
}

/// The position at which `key` stands in an ascending row or would be
/// put, found by halving.
pub fn lower_bound<T: TextKeyed>(rows: &Vec<T>, key: &str) -> (p: usize)
    ensures
        p <= rows.len(),
        ascending(keys_of(rows@)) ==> p == rank(keys_of(rows@), key@),
{
    let ghost keys = keys_of(rows@);
    let mut lo: usize = 0;
    let mut hi: usize = rows.len();
    while lo < hi
        invariant
            lo <= hi <= rows.len(),
            keys == keys_of(rows@),
            ascending(keys) ==> forall|j: int| 0 <= j < lo ==> text_less(#[trigger] keys[j], key@),
            ascending(keys) ==> forall|j: int|
                hi <= j < keys.len() ==> !text_less(#[trigger] keys[j], key@),
        decreases hi - lo,
    {
        let mid = lo + (hi - lo) / 2;
        if str_less(rows[mid].key(), key) {
            proof {
                if ascending(keys) {
                    assert forall|j: int| 0 <= j < mid + 1 implies text_less(
                        #[trigger] keys[j],
                        key@,
                    ) by {
                        if j < mid {
                            assert(text_less(keys[j], keys[mid as int]));
                            lemma_text_less_transitive(keys[j], keys[mid as int], key@);
                        }
                    }
                }
            }
            lo = mid + 1;
        } else {
            proof {
                if ascending(keys) {
                    assert forall|j: int| mid <= j < keys.len() implies !text_less(
                        #[trigger] keys[j],
                        key@,
                    ) by {
                        if j > mid && text_less(keys[j], key@) {
                            assert(text_less(keys[mid as int], keys[j]));
                            lemma_text_less_transitive(keys[mid as int], keys[j], key@);
                        }
                    }
                }
            }
            hi = mid;
        }
    }
    proof {
        if ascending(keys) {
            lemma_rank_is(keys, key@, lo as int);
        }
    }
    lo
}

/// The lowercase form of a text, as Unicode defines it.
pub uninterp spec fn lowercase_of(text: Seq<char>) -> Seq<char>;

/// Calls `str::to_lowercase`. The result is a function of the text alone;
/// the contract names it and says nothing more of it.
#[verifier::external_body]
pub(crate) fn to_lowercase(text: &str) -> (lower: String)
    ensures
        lower@ == lowercase_of(text@),
{
    text.to_lowercase()
}

/// Calls `str::ends_with` with a string pattern: whether `text` ends
/// with the characters of `suffix`.
#[verifier::external_body]
pub(crate) fn ends_with(text: &str, suffix: &str) -> (found: bool)
    ensures
        found == suffix@.is_suffix_of(text@),
{
    text.ends_with(suffix)
}

} // verus!
