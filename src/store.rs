use vstd::prelude::*;

verus! {

/// Identity of one incarnation of a file: its path, and its creation time as
/// whole seconds and nanoseconds since the Unix epoch. A file that is replaced
/// comes back with another creation time, hence under another key.
pub type FileKey = (String, u64, u32);

/// The mathematical value of a key.
pub open spec fn key_view(k: FileKey) -> (Seq<char>, u64, u32) {
    (k.0@, k.1, k.2)
}

#[verifier::external_type_specification]
#[verifier::external_body]
#[verifier::reject_recursive_types(K)]
#[verifier::reject_recursive_types(V)]
#[verifier::reject_recursive_types(S)]
pub struct ExCache<K, V, S>(moka::sync::Cache<K, V, S>);

/// The entries of a cache. It drops some of them only when they are more
/// than its capacity allows.
pub uninterp spec fn cache_entries(c: moka::sync::Cache<FileKey, u64>) -> Map<
    (Seq<char>, u64, u32),
    u64,
>;

/// The number of entries a cache was made to hold.
pub uninterp spec fn cache_capacity(c: moka::sync::Cache<FileKey, u64>) -> u64;

/// `entries` holds `value` for `key`.
pub open spec fn holds_entry(
    entries: Map<(Seq<char>, u64, u32), u64>,
    key: (Seq<char>, u64, u32),
    value: u64,
) -> bool {
    entries.contains_key(key) && entries[key] == value
}

/// Relies on moka::sync::Cache::new: a new cache holds nothing and keeps up
/// to `max_capacity` entries.
#[verifier::external_body]
fn new_cache(max_capacity: u64) -> (r: moka::sync::Cache<FileKey, u64>)
    ensures
        cache_entries(r).dom().is_empty(),
        cache_capacity(r) == max_capacity,
{
    moka::sync::Cache::new(max_capacity)
}

/// Relies on moka::sync::Cache::get: a value it returns is the one held for
/// the key, and within capacity (no expiry is set) a held entry is returned.
#[verifier::external_body]
fn cache_get(c: &moka::sync::Cache<FileKey, u64>, key: &FileKey) -> (r: Option<u64>)
    ensures
        r matches Some(v) ==> holds_entry(cache_entries(*c), key_view(*key), v),
        cache_entries(*c).dom().len() <= cache_capacity(*c) && cache_entries(*c).contains_key(
            key_view(*key),
        ) ==> r == Some(cache_entries(*c)[key_view(*key)]),
{
    c.get(key)
}

/// Relies on moka::sync::Cache::insert: the key is set to the value. The cache
/// holds no entry it did not hold before but this one, and while the entries
/// fit its capacity it drops none.
#[verifier::external_body]
fn cache_insert(c: &mut moka::sync::Cache<FileKey, u64>, key: FileKey, value: u64)
    ensures
        cache_capacity(*final(c)) == cache_capacity(*old(c)),
        cache_entries(*final(c)).submap_of(cache_entries(*old(c)).insert(key_view(key), value)),
        cache_entries(*old(c)).insert(key_view(key), value).dom().len() <= cache_capacity(*old(c))
            ==> cache_entries(*final(c)) == cache_entries(*old(c)).insert(key_view(key), value),
{
    c.insert(key, value)
}

/// The bound on the number of offsets kept.
pub const DEFAULT_CAPACITY: u64 = 65535;

/// Where each logical file was last read up to. Bounded: past its capacity
/// it forgets entries, and a forgotten file is read again from the start.
pub struct OffsetStore {
    cache: moka::sync::Cache<FileKey, u64>,
}

impl View for OffsetStore {
    type V = Map<(Seq<char>, u64, u32), u64>;

    closed spec fn view(&self) -> Self::V {
        cache_entries(self.cache)
    }
}

impl OffsetStore {
    /// How many offsets the store keeps before it forgets some.
    pub closed spec fn capacity(&self) -> u64 {
        cache_capacity(self.cache)
    }

    /// The store holds no more offsets than its capacity: none is forgotten.
    pub open spec fn within_capacity(&self) -> bool {
        self@.dom().finite() && self@.dom().len() <= self.capacity()
    }

    /// Recording an offset for `key` forgets nothing: the key is already there,
    /// or there is room for one more.
    pub open spec fn has_room_for(&self, key: (Seq<char>, u64, u32)) -> bool {
        self.within_capacity() && (self@.contains_key(key) || self@.dom().len() < self.capacity())
    }

    /// An empty store that keeps up to `max_capacity` offsets.
    pub fn with_capacity(max_capacity: u64) -> (r: OffsetStore)
        ensures
            r@.dom().is_empty(),
            r.within_capacity(),
            r.capacity() == max_capacity,
    {
        let r = OffsetStore { cache: new_cache(max_capacity) };
        assert(r@.dom() =~= Set::empty());
        r
    }

    /// An empty store of the default capacity.
    pub fn new() -> (r: OffsetStore)
        ensures
            r@.dom().is_empty(),
            r.within_capacity(),
            r.capacity() == DEFAULT_CAPACITY,
    {
        OffsetStore::with_capacity(DEFAULT_CAPACITY)
    }

    /// The offset stored for `key`, or 0 when none is.
    pub fn get(&self, key: &FileKey) -> (r: u64)
        ensures
            !self@.contains_key(key_view(*key)) ==> r == 0,
            self@.contains_key(key_view(*key)) ==> r == self@[key_view(*key)] || r == 0,
            self.within_capacity() && self@.contains_key(key_view(*key)) ==> r == self@[key_view(
                *key,
            )],
    {
        match cache_get(&self.cache, key) {
            Some(v) => v,
            None => 0,
        }
    }

    /// Stores `offset` for `key`, replacing what was there.
    pub fn set(&mut self, key: FileKey, offset: u64)
        ensures
            final(self).capacity() == old(self).capacity(),
            final(self)@.submap_of(old(self)@.insert(key_view(key), offset)),
            old(self)@.insert(key_view(key), offset).dom().len() <= old(self).capacity()
                ==> final(self)@ == old(self)@.insert(key_view(key), offset),
            old(self).within_capacity() ==> final(self)@.dom().finite(),
            old(self).has_room_for(key_view(key)) ==> final(self)@ == old(self)@.insert(
                key_view(key),
                offset,
            ) && final(self).within_capacity(),
    {
        let ghost k = key_view(key);
        cache_insert(&mut self.cache, key, offset);
        proof {
            if old(self).within_capacity() {
                let m = old(self)@.insert(k, offset);
                assert(m.dom() =~= old(self)@.dom().insert(k));
                vstd::set_lib::lemma_len_subset(self@.dom(), m.dom());
                if old(self)@.contains_key(k) {
                    assert(old(self)@.dom().insert(k) =~= old(self)@.dom());
                }
            }
        }
    }
}

} // verus!
