use vstd::prelude::*;

use std::collections::HashMap;

use crate::entry::{now_millis, ttl_of, ShardEntry};
use crate::error::StoreError;
use crate::shard::{live_at, Shard};

verus! {

broadcast use vstd::std_specs::hash::group_hash_axioms;

/// The CRC-32 checksum of a byte sequence.
pub uninterp spec fn crc32_of(data: Seq<u8>) -> u32;

/// Relies on `crc32fast::hash`: the CRC-32 (IEEE) checksum of `data`.
#[verifier::external_body]
fn crc32(data: &[u8]) -> (r: u32)
    ensures
        r == crc32_of(data@),
{
    crc32fast::hash(data)
}

/// The shard that a hash falls into among `shard_count` shards.
pub fn shard_index(hash: u32, shard_count: usize) -> (r: usize)
    requires
        shard_count > 0,
    ensures
        r as int == (hash as int) % (shard_count as int),
        r < shard_count,
{
    ((hash as u64) % (shard_count as u64)) as usize
}

/// The contents of the shards of a store, by shard index.
pub type ShardViews = Seq<Map<Seq<char>, ShardEntry>>;

/// The shard that owns `key` among `n` shards: the CRC-32 of the key's UTF-8
/// bytes, modulo `n`.
pub open spec fn shard_of(key: Seq<char>, n: nat) -> int {
    (crc32_of(vstd::utf8::encode_utf8(key)) as int) % (n as int)
}

/// The entry of `key` in the shard that owns it, if there is one.
pub open spec fn lookup_in(views: ShardViews, key: Seq<char>) -> Option<ShardEntry> {
    let m = views[shard_of(key, views.len())];
    if m.contains_key(key) {
        Some(m[key])
    } else {
        None
    }
}

/// The shards once every entry expired at `now` is gone.
pub open spec fn cleaned(views: ShardViews, now: int) -> ShardViews {
    views.map_values(|m: Map<Seq<char>, ShardEntry>| live_at(m, now))
}

/// The size recorded for shard `i` at its last flush; 0 when none is.
pub open spec fn recorded_size(flushed: Map<usize, usize>, i: usize) -> usize {
    if flushed.contains_key(i) {
        flushed[i]
    } else {
        0
    }
}

/// Whether a flush pass snapshots shard `i`, and the sizes recorded after it:
/// a shard whose size differs from the recorded one is snapshotted and has
/// its size recorded.
pub open spec fn flush_outcome(views: ShardViews, flushed: Map<usize, usize>, i: usize) -> (
    bool,
    Map<usize, usize>,
) {
    let size = views[i as int].len();
    if size == recorded_size(flushed, i) {
        (false, flushed)
    } else {
        (true, flushed.insert(i, size as usize))
    }
}

/// A key/value store whose keys are spread over a fixed number of shards.
pub struct KVStore {
    shards: Vec<Shard>,
    directory: String,
    shard_dimensions: HashMap<usize, usize>,
}

impl KVStore {
    /// At least one shard, each well formed.
    pub closed spec fn wf(&self) -> bool {
        &&& self.shards@.len() > 0
        &&& forall|i: int| 0 <= i < self.shards@.len() ==> #[trigger] self.shards@[i].wf()
    }

    /// The contents of each shard.
    pub closed spec fn shard_views(&self) -> ShardViews {
        self.shards@.map_values(|s: Shard| s@)
    }

    /// The size recorded for each shard at its last flush.
    pub closed spec fn flushed(&self) -> Map<usize, usize> {
        self.shard_dimensions@
    }

    /// The directory that holds the snapshot files.
    pub closed spec fn dir(&self) -> Seq<char> {
        self.directory@
    }

    /// The entry of `key`, if the store holds one.
    pub open spec fn lookup(&self, key: Seq<char>) -> Option<ShardEntry> {
        lookup_in(self.shard_views(), key)
    }

    /// A store of `num_shards` empty shards that keeps its snapshots in
    /// `directory`.
    pub fn new(num_shards: usize, directory: String) -> (r: Self)
        requires
            num_shards > 0,
        ensures
            r.wf(),
            r.shard_views() == Seq::new(
                num_shards as nat,
                |i: int| Map::<Seq<char>, ShardEntry>::empty(),
            ),
            r.flushed() == Map::<usize, usize>::empty(),
            r.dir() == directory@,
    {
        let mut shards: Vec<Shard> = Vec::new();
        let mut i: usize = 0;
        while i < num_shards
            invariant
                i <= num_shards,
                shards@.len() == i,
                forall|j: int| 0 <= j < i ==> #[trigger] shards@[j].wf() && shards@[j]@
                    == Map::<Seq<char>, ShardEntry>::empty(),
            decreases num_shards - i,
        {
            shards.push(Shard::new());
            i = i + 1;
        }
        let r = KVStore { shards, directory, shard_dimensions: HashMap::new() };
        assert forall|j: int| 0 <= j < num_shards implies r.shard_views()[j]
            == Map::<Seq<char>, ShardEntry>::empty() by {
            assert(r.shards@[j].wf());
        }
        assert(r.shard_views() =~= Seq::new(
            num_shards as nat,
            |i: int| Map::<Seq<char>, ShardEntry>::empty(),
        ));
        r
    }

    /// A store rebuilt from what was read back for each shard: `loaded[i]` is
    /// the shard read from shard `i`'s snapshot, or `None` where there was
    /// none, which gives an empty shard.
    pub fn new_from_disk(num_shards: usize, directory: String, loaded: Vec<Option<Shard>>) -> (r:
        Self)
        requires
            num_shards > 0,
            loaded@.len() == num_shards,
            forall|i: int| 0 <= i < num_shards ==> (#[trigger] loaded@[i] matches Some(s) ==> s.wf()),
        ensures
            r.wf(),
            r.shard_views().len() == num_shards,
            forall|i: int|
                0 <= i < num_shards ==> #[trigger] r.shard_views()[i] == match loaded@[i] {
                    Some(s) => s@,
                    None => Map::<Seq<char>, ShardEntry>::empty(),
                },
            r.flushed() == Map::<usize, usize>::empty(),
            r.dir() == directory@,
    {
        let mut shards: Vec<Shard> = Vec::new();
        let mut rest = loaded;
        let ghost all = rest@;
        let mut i: usize = 0;
        while i < num_shards
            invariant
                i <= num_shards,
                all.len() == num_shards,
                rest@ == all.skip(i as int),
                forall|j: int| 0 <= j < num_shards ==> (#[trigger] all[j] matches Some(s) ==> s.wf()),
                shards@.len() == i,
                forall|j: int|
                    0 <= j < i ==> #[trigger] shards@[j].wf() && shards@[j]@ == match all[j] {
                        Some(s) => s@,
                        None => Map::<Seq<char>, ShardEntry>::empty(),
                    },
            decreases num_shards - i,
        {
            assert(rest@[0] == all[i as int]);
            let slot = rest.remove(0);
            assert(rest@ =~= all.skip(i + 1));
            match slot {
                Some(s) => shards.push(s),
                None => shards.push(Shard::new()),
            }
            i = i + 1;
        }
        let r = KVStore { shards, directory, shard_dimensions: HashMap::new() };
        assert forall|j: int| 0 <= j < num_shards implies #[trigger] r.shard_views()[j]
            == match loaded@[j] {
            Some(s) => s@,
            None => Map::<Seq<char>, ShardEntry>::empty(),
        } by {
            assert(r.shards@[j].wf());
        }
        r
    }

    /// The number of shards.
    pub fn shard_count(&self) -> (r: usize)
        ensures
            r == self.shard_views().len(),
    {
        self.shards.len()
    }

    /// Shard `i`.
    pub fn shard(&self, i: usize) -> (r: &Shard)
        requires
            self.wf(),
            i < self.shard_views().len(),
        ensures
            r.wf(),
            r@ == self.shard_views()[i as int],
    {
        &self.shards[i]
    }

    /// The directory that holds the snapshot files.
    pub fn directory(&self) -> (r: &String)
        ensures
            r@ == self.dir(),
    {
        &self.directory
    }

    /// The number of shards whose size has been recorded by a flush.
    pub fn flushed_count(&self) -> (r: usize)
        ensures
            r == self.flushed().len(),
    {
        self.shard_dimensions.len()
    }

    /// The size recorded for shard `i` at its last flush, if any.
    pub fn flushed_size(&self, i: usize) -> (r: Option<usize>)
        ensures
            r == (if self.flushed().contains_key(i) {
                Some(self.flushed()[i])
            } else {
                None
            }),
    {
        match self.shard_dimensions.get(&i) {
            Some(n) => Some(*n),
            None => None,
        }
    }

    /// The shard that owns `key`.
    pub fn find_shard(&self, key: &str) -> (r: usize)
        requires
            self.wf(),
        ensures
            r == shard_of(key@, self.shard_views().len()),
            r < self.shard_views().len(),
    {
        let hash = crc32(key.as_bytes());
        shard_index(hash, self.shards.len())
    }

    /// Stores `value` under `key`, created at `now`, with the given
    /// time-to-live in milliseconds (`None`: it never expires), replacing any
    /// entry that the key had.
    pub fn put_at(&mut self, key: String, value: serde_json::Value, ttl_ms: Option<i64>, now: u64)
        requires
            old(self).wf(),
        ensures
            final(self).wf(),
            final(self).shard_views() == old(self).shard_views().update(
                shard_of(key@, old(self).shard_views().len()),
                old(self).shard_views()[shard_of(key@, old(self).shard_views().len())].insert(
                    key@,
                    ShardEntry { ttl: ttl_of(ttl_ms), value, timestamp: now },
                ),
            ),
            final(self).flushed() == old(self).flushed(),
            final(self).dir() == old(self).dir(),
    {
        let idx = self.find_shard(key.as_str());
        let entry = ShardEntry::new_at(value, ttl_ms, now);
        assert(self.shards@[idx as int].wf());
        self.shards[idx].put_entry(key, entry);
        proof {
            assert forall|j: int| 0 <= j < self.shards@.len() implies #[trigger] self.shards@[j].wf() by {
                if j != idx {
                    assert(old(self).shards@[j].wf());
                }
            }
            assert(self.shard_views() =~= old(self).shard_views().update(
                idx as int,
                old(self).shard_views()[idx as int].insert(key@, entry),
            ));
        }
    }

    /// Stores `value` under `key`, created now by the system clock, with the
    /// given time-to-live in milliseconds (`None`: it never expires).
    pub fn put(&mut self, key: String, value: serde_json::Value, ttl_ms: Option<i64>)
        requires
            old(self).wf(),
        ensures
            final(self).wf(),
            exists|now: u64|
                final(self).shard_views() == old(self).shard_views().update(
                    shard_of(key@, old(self).shard_views().len()),
                    old(self).shard_views()[shard_of(key@, old(self).shard_views().len())].insert(
                        key@,
                        ShardEntry { ttl: ttl_of(ttl_ms), value, timestamp: now },
                    ),
                ),
            final(self).flushed() == old(self).flushed(),
            final(self).dir() == old(self).dir(),
    {
        let now = now_millis();
        self.put_at(key, value, ttl_ms, now);
    }

    /// The value stored under `key`. An entry past its time-to-live is still
    /// returned until a cleanup removes it.
    pub fn get(&self, key: String) -> (r: Result<serde_json::Value, StoreError>)
        requires
            self.wf(),
        ensures
            r == match self.lookup(key@) {
                Some(e) => Ok(e.value),
                None => Err(StoreError::NotFound),
            },
    {
        let idx = self.find_shard(key.as_str());
        assert(self.shards@[idx as int].wf());
        match self.shards[idx].get(&key) {
            Some(e) => Ok(e.value.clone()),
            None => Err(StoreError::NotFound),
        }
    }

    /// Removes the entry of `key`; a key that is absent is no error.
    pub fn delete(&mut self, key: String)
        requires
            old(self).wf(),
        ensures
            final(self).wf(),
            final(self).shard_views() == old(self).shard_views().update(
                shard_of(key@, old(self).shard_views().len()),
                old(self).shard_views()[shard_of(key@, old(self).shard_views().len())].remove(key@),
            ),
            final(self).flushed() == old(self).flushed(),
            final(self).dir() == old(self).dir(),
    {
        let idx = self.find_shard(key.as_str());
        assert(self.shards@[idx as int].wf());
        self.shards[idx].remove(&key);
        proof {
            assert forall|j: int| 0 <= j < self.shards@.len() implies #[trigger] self.shards@[j].wf() by {
                if j != idx {
                    assert(old(self).shards@[j].wf());
                }
            }
            assert(self.shard_views() =~= old(self).shard_views().update(
                idx as int,
                old(self).shard_views()[idx as int].remove(key@),
            ));
        }
    }

    /// Removes, shard by shard in index order, every entry expired at `now`.
    pub fn cleanup_at(&mut self, now: u64)
        requires
            old(self).wf(),
        ensures
            final(self).wf(),
            final(self).shard_views() == cleaned(old(self).shard_views(), now as int),
            final(self).flushed() == old(self).flushed(),
            final(self).dir() == old(self).dir(),
    {
        let n = self.shards.len();
        let mut i: usize = 0;
        while i < n
            invariant
                n == self.shards@.len(),
                n == old(self).shards@.len(),
                i <= n,
                self.wf(),
                forall|j: int| 0 <= j < i ==> #[trigger] self.shard_views()[j] == live_at(
                    old(self).shard_views()[j],
                    now as int,
                ),
                forall|j: int| i <= j < n ==> #[trigger] self.shard_views()[j] == old(self).shard_views()[j],
                self.shard_dimensions == old(self).shard_dimensions,
                self.directory == old(self).directory,
            decreases n - i,
        {
            let ghost before = self.shard_views();
            assert(self.shards@[i as int].wf());
            self.shards[i].evict_at(now);
            proof {
                assert forall|j: int| 0 <= j < self.shards@.len() implies #[trigger] self.shards@[j].wf() by {
                    if j != i {
                        assert(self.shard_views()[j] == before[j]);
                    }
                }
                assert(self.shard_views() =~= before.update(i as int, live_at(before[i as int], now as int)));
            }
            i = i + 1;
        }
        assert(self.shard_views() =~= cleaned(old(self).shard_views(), now as int));
    }

    /// Removes every entry expired now, by the system clock.
    pub fn cleanup(&mut self)
        requires
            old(self).wf(),
        ensures
            final(self).wf(),
            exists|now: u64| final(self).shard_views() == cleaned(old(self).shard_views(), now as int),
            final(self).flushed() == old(self).flushed(),
            final(self).dir() == old(self).dir(),
    {
        let now = now_millis();
        self.cleanup_at(now);
    }

    /// Decides whether a flush pass snapshots shard `i`, and records the size
    /// that it flushes: a shard whose size is unchanged since its last flush
    /// is skipped.
    pub fn mark_flush(&mut self, i: usize) -> (r: bool)
        requires
            old(self).wf(),
            i < old(self).shard_views().len(),
        ensures
            final(self).wf(),
            (r, final(self).flushed()) == flush_outcome(old(self).shard_views(), old(self).flushed(), i),
            final(self).shard_views() == old(self).shard_views(),
            final(self).dir() == old(self).dir(),
    {
        assert(self.shards@[i as int].wf());
        let size = self.shards[i].get_length();
        let stored = match self.shard_dimensions.get(&i) {
            Some(n) => *n,
            None => 0,
        };
        if size == stored {
            false
        } else {
            self.shard_dimensions.insert(i, size);
            true
        }
    }
}

/// The shard of a key depends on the key and the shard count alone: two
/// stores with the same number of shards route every key alike, to a shard
/// that exists.
pub proof fn lemma_routing_stable(a: KVStore, b: KVStore, key: Seq<char>)
    requires
        a.wf(),
        b.wf(),
        a.shard_views().len() == b.shard_views().len(),
    ensures
        shard_of(key, a.shard_views().len()) == shard_of(key, b.shard_views().len()),
        0 <= shard_of(key, a.shard_views().len()) < a.shard_views().len(),
{
}

/// After a cleanup at `now`, a key whose entry is expired at `now` is absent,
/// and a key whose entry is not expired still has it.
pub proof fn lemma_cleanup_removes_expired(views: ShardViews, key: Seq<char>, now: int)
    requires
        views.len() > 0,
    ensures
        lookup_in(cleaned(views, now), key) == match lookup_in(views, key) {
            Some(e) => if e.expired_at(now) {
                None
            } else {
                Some(e)
            },
            None => None,
        },
{
    let i = shard_of(key, views.len());
    assert(cleaned(views, now)[i] == live_at(views[i], now));
}

/// An entry stored without a time-to-live survives a cleanup at any time.
pub proof fn lemma_cleanup_keeps_permanent(views: ShardViews, key: Seq<char>, now: int)
    requires
        views.len() > 0,
        lookup_in(views, key) matches Some(e) && e.ttl == ttl_of(None),
    ensures
        lookup_in(cleaned(views, now), key) == lookup_in(views, key),
{
    lemma_cleanup_removes_expired(views, key, now);
}

/// Deleting a key that is absent changes nothing.
pub proof fn lemma_delete_absent(views: ShardViews, key: Seq<char>)
    requires
        views.len() > 0,
        lookup_in(views, key) is None,
    ensures
        views.update(
            shard_of(key, views.len()),
            views[shard_of(key, views.len())].remove(key),
        ) == views,
{
    let i = shard_of(key, views.len());
    assert(views[i].remove(key) =~= views[i]);
    assert(views.update(i, views[i].remove(key)) =~= views);
}

/// A second flush of a shard, with no change to it in between, snapshots
/// nothing and records nothing new.
pub proof fn lemma_flush_twice(views: ShardViews, flushed: Map<usize, usize>, i: usize)
    requires
        i < views.len(),
        views[i as int].len() <= usize::MAX,
    ensures
        flush_outcome(views, flush_outcome(views, flushed, i).1, i) == (
            false,
            flush_outcome(views, flushed, i).1,
        ),
{
}

} // verus!
