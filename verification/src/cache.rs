//! The response cache: vectors by model and text.
//!
//! The vector of a text is the same each time, so a text that comes again need
//! not be embedded again. The cache lives in the process, is bounded in size,
//! and gives up the entries that were used least recently. A cache of capacity
//! zero is off: it holds nothing and accepts nothing.
//!
//! A vector is held as the bit patterns of its 32-bit floating-point numbers.
use vstd::prelude::*;
use vstd::string::*;
use moka::policy::EvictionPolicy;
use moka::sync::Cache;
use sha2::{Digest, Sha256};

verus! {

broadcast use group_string_axioms;

/// The key of an entry: the model's name and the digest of the text.
pub type CacheKey = (String, [u8; 32]);

/// `moka::sync::Cache`, a concurrent cache that is bounded in size.
#[verifier::external_type_specification]
#[verifier::external_body]
#[verifier::reject_recursive_types(K)]
#[verifier::reject_recursive_types(V)]
#[verifier::reject_recursive_types(S)]
pub struct ExCache<K, V, S>(moka::sync::Cache<K, V, S>);

/// The value that was written last under each key of a cache.
pub uninterp spec fn last_written(c: Cache<CacheKey, Vec<u32>>) -> Map<
    (Seq<char>, Seq<u8>),
    Seq<u32>,
>;

/// What was written in a new cache.
pub open spec fn nothing_written() -> Map<(Seq<char>, Seq<u8>), Seq<u32>> {
    Map::empty()
}

/// The number of entries that a cache was made for.
pub uninterp spec fn made_for(c: Cache<CacheKey, Vec<u32>>) -> nat;

/// Whether a cache has no maintenance left to do: all writes are counted, and no
/// entry is one too many.
pub uninterp spec fn is_settled(c: Cache<CacheKey, Vec<u32>>) -> bool;

/// The keys of the entries that a settled cache has not given up.
pub uninterp spec fn kept_keys(c: Cache<CacheKey, Vec<u32>>) -> Set<(Seq<char>, Seq<u8>)>;

/// The number of entries that are kept of those written: all of them, or as many
/// as the cache was made for.
pub open spec fn fitting(written: nat, capacity: nat) -> nat {
    if written <= capacity {
        written
    } else {
        capacity
    }
}

/// The SHA-256 digest of some bytes.
pub uninterp spec fn sha256_of(bytes: Seq<u8>) -> Seq<u8>;

/// `sha2::Sha256::digest`: the SHA-256 digest, a function of the bytes alone.
#[verifier::external_body]
fn sha256(bytes: &[u8]) -> (r: [u8; 32])
    ensures
        r@ == sha256_of(bytes@),
{
    Sha256::digest(bytes).into()
}

/// The view of a key.
pub open spec fn key_view(key: CacheKey) -> (Seq<char>, Seq<u8>) {
    (key.0@, key.1@)
}

/// `moka::sync::Cache::builder` with a maximal capacity and least-recently-used
/// eviction: a cache in which nothing was written, so that it keeps nothing and
/// has nothing to maintain.
#[verifier::external_body]
fn lru_cache(max_entries: u64) -> (r: Cache<CacheKey, Vec<u32>>)
    ensures
        last_written(r) == nothing_written(),
        made_for(r) == max_entries,
        is_settled(r),
        kept_keys(r) == Set::<(Seq<char>, Seq<u8>)>::empty(),
{
    Cache::builder().max_capacity(max_entries).eviction_policy(EvictionPolicy::lru()).build()
}

/// `moka::sync::Cache::get`: nothing, or the value that was written last under
/// the key. Entries are given up only once more keys were written than the
/// cache was made for; until then a key that was written is found. A settled
/// cache finds the keys that it keeps and no others.
#[verifier::external_body]
fn cache_get(cache: &Cache<CacheKey, Vec<u32>>, key: &CacheKey) -> (r: Option<Vec<u32>>)
    ensures
        r matches Some(v) ==> last_written(*cache).contains_pair(key_view(*key), v@),
        last_written(*cache).contains_key(key_view(*key)) && last_written(*cache).dom().len()
            <= made_for(*cache) ==> r is Some,
        is_settled(*cache) ==> (r is Some <==> kept_keys(*cache).contains(key_view(*key))),
{
    cache.get(key)
}

/// `moka::sync::Cache::insert`: writes a value under a key. When the cache is
/// settled again is left to it.
#[verifier::external_body]
fn cache_insert(cache: &mut Cache<CacheKey, Vec<u32>>, key: CacheKey, value: Vec<u32>)
    ensures
        last_written(*final(cache)) == last_written(*old(cache)).insert(key_view(key), value@),
        made_for(*final(cache)) == made_for(*old(cache)),
{
    cache.insert(key, value)
}

/// `moka::sync::Cache::entry_count`: an estimate of the number of entries. It
/// lags behind the writes, and is never more than the keys that were written. Of
/// a settled cache it is the number of entries that are kept.
#[verifier::external_body]
fn cache_count(cache: &Cache<CacheKey, Vec<u32>>) -> (r: u64)
    ensures
        r <= last_written(*cache).dom().len(),
        is_settled(*cache) ==> r == kept_keys(*cache).len(),
{
    cache.entry_count()
}

/// `moka::sync::Cache::run_pending_tasks`: counts all writes and gives up the
/// entries that are too many. What was written last under each key is as before.
/// As many of the keys that were written are kept as the cache was made for;
/// which of them is not stated, since it rests on the times of reads and writes.
#[verifier::external_body]
fn cache_settle(cache: &mut Cache<CacheKey, Vec<u32>>)
    ensures
        last_written(*final(cache)) == last_written(*old(cache)),
        made_for(*final(cache)) == made_for(*old(cache)),
        is_settled(*final(cache)),
        kept_keys(*final(cache)).subset_of(last_written(*final(cache)).dom()),
        kept_keys(*final(cache)).len() == fitting(
            last_written(*final(cache)).dom().len(),
            made_for(*final(cache)),
        ),
{
    cache.run_pending_tasks()
}

/// The digest of a text: that of its UTF-8 bytes.
pub open spec fn digest(text: Seq<char>) -> Seq<u8> {
    sha256_of(vstd::utf8::encode_utf8(text))
}

/// The digest of a text.
pub fn hash_text(text: &str) -> (r: [u8; 32])
    ensures
        r@ == digest(text@),
        r@ == sha256_of(vstd::utf8::encode_utf8(text@)),
{
    sha256(text.as_bytes())
}

/// A cache of vectors by model and text.
pub struct EmbeddingCache {
    inner: Option<Cache<CacheKey, Vec<u32>>>,
}

impl View for EmbeddingCache {
    type V = Map<(Seq<char>, Seq<u8>), Seq<u32>>;

    /// What was written last for each model and digest.
    closed spec fn view(&self) -> Map<(Seq<char>, Seq<u8>), Seq<u32>> {
        match self.inner {
            Some(cache) => last_written(cache),
            None => Map::empty(),
        }
    }
}

impl EmbeddingCache {
    /// The number of entries that the cache was made for; zero when it is off.
    pub closed spec fn capacity(&self) -> nat {
        match self.inner {
            Some(cache) => made_for(cache),
            None => 0,
        }
    }

    /// Whether the cache is on.
    pub closed spec fn on(&self) -> bool {
        self.inner is Some
    }

    /// Whether the cache has no maintenance left to do, as one that is off never
    /// has.
    pub closed spec fn settled(&self) -> bool {
        match self.inner {
            Some(cache) => is_settled(cache),
            None => true,
        }
    }

    /// The models and digests whose vectors a settled cache has not given up.
    pub closed spec fn kept(&self) -> Set<(Seq<char>, Seq<u8>)> {
        match self.inner {
            Some(cache) => kept_keys(cache),
            None => Set::empty(),
        }
    }

    /// A cache for at most `max_entries` entries; with `0` it is off.
    pub fn new(max_entries: usize) -> (r: EmbeddingCache)
        ensures
            r@ == nothing_written(),
            r.capacity() == max_entries,
            r.on() == (max_entries > 0),
            r.settled(),
            r.kept() == Set::<(Seq<char>, Seq<u8>)>::empty(),
    {
        if max_entries == 0 {
            EmbeddingCache { inner: None }
        } else {
            EmbeddingCache { inner: Some(lru_cache(max_entries as u64)) }
        }
    }

    /// Whether the cache is on.
    pub fn is_enabled(&self) -> (r: bool)
        ensures
            r == self.on(),
    {
        self.inner.is_some()
    }

    /// The vector that was written last for this model and text, or nothing.
    /// While no more keys were written than the cache was made for, what was
    /// written is found. A settled cache finds what it keeps and nothing else.
    pub fn get(&self, model: &str, text: &str) -> (r: Option<Vec<u32>>)
        ensures
            r matches Some(v) ==> self@.contains_pair((model@, digest(text@)), v@),
            self@.contains_key((model@, digest(text@))) && self@.dom().len() <= self.capacity()
                ==> r is Some,
            !self.on() ==> r is None,
            self.settled() ==> (r is Some <==> self.kept().contains((model@, digest(text@)))),
    {
        match &self.inner {
            Some(cache) => {
                let key: CacheKey = (model.to_owned(), hash_text(text));
                cache_get(cache, &key)
            },
            None => None,
        }
    }

    /// Writes the vector of this model and text. A cache that is off stays
    /// empty.
    pub fn insert(&mut self, model: &str, text: &str, vec: Vec<u32>)
        ensures
            final(self)@ == if old(self).on() {
                old(self)@.insert((model@, digest(text@)), vec@)
            } else {
                old(self)@
            },
            final(self).on() == old(self).on(),
            final(self).capacity() == old(self).capacity(),
    {
        let key: CacheKey = (model.to_owned(), hash_text(text));
        match &mut self.inner {
            Some(cache) => {
                cache_insert(cache, key, vec);
            },
            None => {},
        }
    }

    /// An estimate of the number of entries; zero when the cache is off. Of a
    /// settled cache it is the number of entries that are kept.
    pub fn len(&self) -> (r: usize)
        ensures
            r <= self@.dom().len(),
            !self.on() ==> r == 0,
            self.settled() && self.kept().len() <= usize::MAX ==> r == self.kept().len(),
    {
        match &self.inner {
            Some(cache) => {
                let n: u64 = cache_count(cache);
                if n <= usize::MAX as u64 {
                    n as usize
                } else {
                    usize::MAX
                }
            },
            None => 0,
        }
    }

    /// Gives up the entries that are too many, and brings the estimate of the
    /// number of entries up to date: the cache is settled, and keeps as many of
    /// the entries that were written as it was made for.
    pub fn run_pending_tasks_for_test(&mut self)
        ensures
            final(self)@ == old(self)@,
            final(self).on() == old(self).on(),
            final(self).capacity() == old(self).capacity(),
            final(self).settled(),
            final(self).kept().subset_of(final(self)@.dom()),
            final(self).kept().len() == fitting(final(self)@.dom().len(), final(self).capacity()),
    {
        match &mut self.inner {
            Some(cache) => {
                cache_settle(cache);
            },
            None => {},
        }
    }
}

/// A write is read back, and disturbs no other entry, as long as the cache has
/// room for it: `written` is what was written before it, and what is promised
/// of a read is that of [`EmbeddingCache::get`].
pub proof fn law_write_is_read_back(
    written: Map<(Seq<char>, Seq<u8>), Seq<u32>>,
    capacity: nat,
    model: Seq<char>,
    text: Seq<char>,
    vec: Seq<u32>,
)
    requires
        written.dom().finite(),
        written.dom().len() < capacity,
    ensures
        ({
            let after: Map<(Seq<char>, Seq<u8>), Seq<u32>> = written.insert(
                (model, digest(text)),
                vec,
            );
            &&& after.contains_pair((model, digest(text)), vec)
            &&& after.dom().finite()
            &&& after.dom().len() <= capacity
            &&& forall|other: (Seq<char>, Seq<u8>)|
                other != (model, digest(text)) && #[trigger] written.contains_key(other)
                    ==> after.contains_pair(other, written[other])
        }),
{
    let after: Map<(Seq<char>, Seq<u8>), Seq<u32>> = written.insert((model, digest(text)), vec);
    assert(after.dom() =~= written.dom().insert((model, digest(text))));
}

/// The digest of a text is that of all its bytes: texts whose bytes the digest
/// tells apart have different keys, and texts of the same bytes the same.
pub proof fn law_digest_is_of_the_whole_text(a: Seq<char>, b: Seq<char>)
    ensures
        digest(a) == sha256_of(vstd::utf8::encode_utf8(a)),
        sha256_of(vstd::utf8::encode_utf8(a)) != sha256_of(vstd::utf8::encode_utf8(b)) ==> digest(
            a,
        ) != digest(b),
{
}

/// A text is never served with the vector of another one: a write for one text
/// or model leaves what is known of another text or model as it was, and a text
/// that was never written stays unknown, as long as the digest tells the texts'
/// bytes apart.
pub proof fn law_other_texts_are_not_served(
    written: Map<(Seq<char>, Seq<u8>), Seq<u32>>,
    model: Seq<char>,
    text: Seq<char>,
    vec: Seq<u32>,
    other_model: Seq<char>,
    other: Seq<char>,
)
    requires
        model != other_model || sha256_of(vstd::utf8::encode_utf8(text)) != sha256_of(
            vstd::utf8::encode_utf8(other),
        ),
    ensures
        ({
            let after: Map<(Seq<char>, Seq<u8>), Seq<u32>> = written.insert(
                (model, digest(text)),
                vec,
            );
            let key: (Seq<char>, Seq<u8>) = (other_model, digest(other));
            &&& after.contains_key(key) <==> written.contains_key(key)
            &&& written.contains_key(key) ==> after[key] == written[key]
        }),
{
    assert((model, digest(text)) != (other_model, digest(other)));
}

/// As many entries are kept as were written, up to the capacity.
pub proof fn law_kept_entries(written: nat, capacity: nat)
    ensures
        fitting(written, capacity) <= written,
        fitting(written, capacity) <= capacity,
        fitting(written, capacity) == written || fitting(written, capacity) == capacity,
{
}

/// Nothing is known to a new cache.
pub proof fn law_new_cache_knows_nothing(key: (Seq<char>, Seq<u8>))
    ensures
        !nothing_written().contains_key(key),
{
}

} // verus!
