//! The key digest and the store that is indexed by it.
//!
//! A key never reaches the store as it is: it is first turned into its
//! SHA-256 digest, written as 64 lowercase hexadecimal characters, and the
//! value is kept under that digest.

use crypto::digest::Digest;
use crypto::sha2::Sha256;
use vstd::hash_map::StringHashMap;
use vstd::prelude::*;
use vstd::string::StringSliceAdditionalSpecFns;
use vstd::utf8::encode_utf8;

verus! {

/// The number of bytes from which on a key is too long to be hashed:
/// SHA-256 counts the bits of its message in 64 bits.
pub const MAX_KEY_BYTES: u64 = 0x2000_0000_0000_0000;

/// The number of characters of a digest.
pub const DIGEST_CHARS: usize = 64;

/// The SHA-256 digest of the UTF-8 bytes of `key`, in lowercase hexadecimal.
pub uninterp spec fn sha256_hex(key: Seq<char>) -> Seq<char>;

/// Whether `c` is a digit of lowercase hexadecimal.
pub open spec fn is_lower_hex(c: char) -> bool {
    ('0' <= c && c <= '9') || ('a' <= c && c <= 'f')
}

/// Whether `s` has the form of a digest: 64 lowercase hexadecimal digits.
pub open spec fn is_digest_form(s: Seq<char>) -> bool {
    &&& s.len() == DIGEST_CHARS
    &&& forall|i: int| 0 <= i < s.len() ==> is_lower_hex(#[trigger] s[i])
}

/// Whether `d` is what [`digest`] returns for `key`.
pub open spec fn is_digest_of(d: Seq<char>, key: Seq<char>) -> bool {
    d == sha256_hex(key) && is_digest_form(d)
}

/// Whether a key is short enough to be hashed.
pub open spec fn key_fits(key: &str) -> bool {
    key.spec_bytes().len() < MAX_KEY_BYTES
}

/// Tells whether `key` is short enough to be hashed, so that a caller can
/// find out before it asks for a digest.
pub fn is_hashable(key: &str) -> (fits: bool)
    ensures
        fits == key_fits(key),
{
    (key.as_bytes().len() as u64) < MAX_KEY_BYTES
}

/// The UTF-8 form of a string has at most four bytes for each character.
pub proof fn lemma_utf8_len_bound(chars: Seq<char>)
    ensures
        encode_utf8(chars).len() <= 4 * chars.len(),
    decreases chars.len(),
{
    if chars.len() > 0 {
        lemma_utf8_len_bound(chars.drop_first());
    }
}

/// A key is short enough to be hashed if four times the number of its
/// characters stays below [`MAX_KEY_BYTES`].
pub proof fn lemma_short_key_fits(key: &str)
    requires
        4 * key@.len() < MAX_KEY_BYTES,
    ensures
        key_fits(key),
{
    lemma_utf8_len_bound(key@);
}

/// Feeds `key` to a new `crypto::sha2::Sha256` with `Digest::input_str` and
/// reads the outcome with `Digest::result_str`.
///
/// Not proved: that the string returned is the function [`sha256_hex`] of
/// the key's characters, and that it is made of 64 lowercase hexadecimal
/// digits (the hasher writes 32 bytes, each as two digits). The hasher
/// panics on a message of 2^61 bytes or more, which `requires` leaves out.
#[verifier::external_body]
fn sha256_hex_of(key: &str) -> (d: String)
    requires
        key_fits(key),
    ensures
        d@ == sha256_hex(key@),
        is_digest_form(d@),
{
    let mut hasher = Sha256::new();
    hasher.input_str(key);
    hasher.result_str()
}

/// The index under which `input` is stored: its SHA-256 digest as 64
/// lowercase hexadecimal characters. Equal inputs give equal digests.
pub fn digest(input: &str) -> (d: String)
    requires
        key_fits(input),
    ensures
        is_digest_of(d@, input@),
{
    sha256_hex_of(input)
}

/// Two digests of the same key are the same string.
pub proof fn lemma_digest_is_deterministic(
    k1: Seq<char>,
    k2: Seq<char>,
    d1: Seq<char>,
    d2: Seq<char>,
)
    requires
        k1 == k2,
        is_digest_of(d1, k1),
        is_digest_of(d2, k2),
    ensures
        d1 == d2,
{
}

/// What a [`SecureDataStore`] stands for in contracts: the value kept under
/// each digest.
pub type DataView = Map<Seq<char>, Seq<char>>;

/// What is kept under the digest `hashed_key`, if anything. Only the very
/// same digest matches.
pub open spec fn lookup(m: DataView, hashed_key: Seq<char>) -> Option<Seq<char>> {
    if m.contains_key(hashed_key) {
        Some(m[hashed_key])
    } else {
        None
    }
}

/// The store after `value` was stored for `key`: whatever stood under the
/// key's digest is replaced.
pub open spec fn stored(m: DataView, key: Seq<char>, value: Seq<char>) -> DataView {
    m.insert(sha256_hex(key), value)
}

/// What a retrieval for `key` finds: the value under the key's digest.
pub open spec fn retrieved(m: DataView, key: Seq<char>) -> Option<Seq<char>> {
    lookup(m, sha256_hex(key))
}

/// Whether `d` is the digest of some key, in the form of a digest.
pub open spec fn is_some_digest(d: Seq<char>) -> bool {
    is_digest_form(d) && exists|key: Seq<char>| d == #[trigger] sha256_hex(key)
}

/// Whether every index of the store is the digest of some key.
pub open spec fn holds_only_digests(m: DataView) -> bool {
    forall|d: Seq<char>| #[trigger] m.contains_key(d) ==> is_some_digest(d)
}

/// Whether `found` is `expected`, character for character.
pub open spec fn same_value(found: Option<String>, expected: Option<Seq<char>>) -> bool {
    match found {
        Some(v) => expected == Some(v@),
        None => expected is None,
    }
}

/// String values kept under the digests of their keys.
pub struct SecureDataStore {
    pub store: StringHashMap<String>,
}

impl View for SecureDataStore {
    type V = DataView;

    open spec fn view(&self) -> DataView {
        self.store@.map_values(|v: String| v@)
    }
}

impl SecureDataStore {
    /// Whether every index of the store is the digest of some key. A new
    /// store is so, and [`Self::store_data`] keeps it so.
    pub open spec fn wf(&self) -> bool {
        holds_only_digests(self@)
    }

    /// A store that holds nothing.
    pub fn new() -> (s: SecureDataStore)
        ensures
            s@ == Map::<Seq<char>, Seq<char>>::empty(),
            s.wf(),
    {
        let s = SecureDataStore { store: StringHashMap::new() };
        assert(s@ =~= Map::<Seq<char>, Seq<char>>::empty());
        s
    }

    /// Puts `value` under the digest `hashed_key`, in place of what stood
    /// there. The rest of the store stays as it is.
    pub fn store_hashed(&mut self, hashed_key: String, value: &str)
        ensures
            final(self)@ == old(self)@.insert(hashed_key@, value@),
            old(self).wf() && is_some_digest(hashed_key@) ==> final(self).wf(),
    {
        let owned = value.to_owned();
        self.store.insert(hashed_key, owned);
        assert(self@ =~= old(self)@.insert(hashed_key@, value@));
    }

    /// The value under the digest `hashed_key`, or `None` where the store
    /// has nothing under exactly that digest.
    pub fn retrieve_hashed(&self, hashed_key: &str) -> (found: Option<String>)
        ensures
            same_value(found, lookup(self@, hashed_key@)),
    {
        match self.store.get(hashed_key) {
            Some(v) => Some(v.clone()),
            None => None,
        }
    }

    /// Stores `value` for `key`: the value goes under the key's digest and
    /// silently replaces what an earlier call stored for that key.
    pub fn store_data(&mut self, key: &str, value: &str)
        requires
            key_fits(key),
        ensures
            final(self)@ == stored(old(self)@, key@, value@),
            old(self).wf() ==> final(self).wf(),
    {
        let hashed_key = digest(key);
        self.store_hashed(hashed_key, value);
    }

    /// The value that was last stored for `key`, or `None` where nothing
    /// stands under the key's digest. The store is not changed.
    pub fn retrieve_data(&self, key: &str) -> (found: Option<String>)
        requires
            key_fits(key),
        ensures
            same_value(found, retrieved(self@, key@)),
    {
        let hashed_key = digest(key);
        self.retrieve_hashed(hashed_key.as_str())
    }
}

/// The store after the writes of `writes`, each a key and a value, were
/// stored one by one, first to last.
pub open spec fn stored_all(m: DataView, writes: Seq<(Seq<char>, Seq<char>)>) -> DataView
    decreases writes.len(),
{
    if writes.len() == 0 {
        m
    } else {
        stored(stored_all(m, writes.drop_last()), writes.last().0, writes.last().1)
    }
}

/// The value of the last write of `writes` that went under the digest of
/// `key`, if there is one.
pub open spec fn last_write(writes: Seq<(Seq<char>, Seq<char>)>, key: Seq<char>) -> Option<
    Seq<char>,
>
    decreases writes.len(),
{
    if writes.len() == 0 {
        None
    } else if sha256_hex(writes.last().0) == sha256_hex(key) {
        Some(writes.last().1)
    } else {
        last_write(writes.drop_last(), key)
    }
}

/// A store that holds nothing has nothing for any key.
pub proof fn lemma_empty_store_has_nothing(key: Seq<char>)
    ensures
        retrieved(Map::<Seq<char>, Seq<char>>::empty(), key) is None,
{
}

/// A retrieval finds what was just stored for the same key, whatever stood
/// there before; a key with another digest is not touched by the write.
pub proof fn lemma_retrieve_after_store(
    m: DataView,
    key: Seq<char>,
    value: Seq<char>,
    other: Seq<char>,
)
    ensures
        retrieved(stored(m, key, value), key) == Some(value),
        sha256_hex(other) == sha256_hex(key) ==> retrieved(stored(m, key, value), other) == Some(
            value,
        ),
        sha256_hex(other) != sha256_hex(key) ==> retrieved(stored(m, key, value), other)
            == retrieved(m, other),
{
}

/// Last write wins: after any run of writes, a retrieval for `key` finds the
/// value of the last write that went under the digest of `key`, and where
/// there was none, what the store held for `key` before the run.
pub proof fn lemma_last_write_wins(
    m: DataView,
    writes: Seq<(Seq<char>, Seq<char>)>,
    key: Seq<char>,
)
    ensures
        retrieved(stored_all(m, writes), key) == match last_write(writes, key) {
            Some(value) => Some(value),
            None => retrieved(m, key),
        },
    decreases writes.len(),
{
    if writes.len() > 0 {
        lemma_last_write_wins(m, writes.drop_last(), key);
    }
}

/// Starting from a store that holds nothing, a retrieval for `key` finds
/// nothing as long as no write went under the digest of `key`, and after one
/// or more such writes it finds the value of the last of them.
pub proof fn lemma_absent_until_stored(writes: Seq<(Seq<char>, Seq<char>)>, key: Seq<char>)
    ensures
        retrieved(stored_all(Map::<Seq<char>, Seq<char>>::empty(), writes), key) == last_write(
            writes,
            key,
        ),
        last_write(writes, key) is None <==> forall|i: int|
            0 <= i < writes.len() ==> sha256_hex(#[trigger] writes[i].0) != sha256_hex(key),
    decreases writes.len(),
{
    lemma_last_write_wins(Map::<Seq<char>, Seq<char>>::empty(), writes, key);
    if writes.len() > 0 {
        let before = writes.drop_last();
        lemma_absent_until_stored(before, key);
        if sha256_hex(writes.last().0) != sha256_hex(key) {
            if last_write(before, key) is None {
                assert forall|i: int| 0 <= i < writes.len() implies sha256_hex(
                    #[trigger] writes[i].0,
                ) != sha256_hex(key) by {
                    if i < before.len() {
                        assert(before[i] == writes[i]);
                    }
                }
            } else {
                let i = choose|i: int|
                    0 <= i < before.len() && sha256_hex(#[trigger] before[i].0) == sha256_hex(key);
                assert(before[i] == writes[i]);
            }
        } else {
            assert(writes[writes.len() - 1] == writes.last());
        }
    }
}

/// Writes keep the store's indices digests: after any run of writes, every
/// index is the digest of some key, provided the digest of each written key
/// has the form of a digest.
pub proof fn lemma_writes_keep_digests(m: DataView, writes: Seq<(Seq<char>, Seq<char>)>)
    requires
        holds_only_digests(m),
        forall|i: int|
            0 <= i < writes.len() ==> is_digest_form(sha256_hex(#[trigger] writes[i].0)),
    ensures
        holds_only_digests(stored_all(m, writes)),
    decreases writes.len(),
{
    if writes.len() > 0 {
        let before = writes.drop_last();
        assert forall|i: int| 0 <= i < before.len() implies is_digest_form(
            sha256_hex(#[trigger] before[i].0),
        ) by {
            assert(before[i] == writes[i]);
        }
        lemma_writes_keep_digests(m, before);
        assert(writes[writes.len() - 1] == writes.last());
    }
}

} // verus!
