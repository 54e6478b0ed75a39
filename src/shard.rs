use vstd::prelude::*;

use crate::entry::ShardEntry;
use crate::snapshot::{frame_snapshot, framed, md5_of};

verus! {

/// The mapping that a sequence of records stands for: a later record of a
/// key replaces an earlier one.
pub open spec fn map_of(s: Seq<(String, ShardEntry)>) -> Map<Seq<char>, ShardEntry>
    decreases s.len(),
{
    if s.len() == 0 {
        Map::empty()
    } else {
        map_of(s.drop_last()).insert(s.last().0@, s.last().1)
    }
}

/// No key occurs twice among the records.
pub open spec fn keys_unique(s: Seq<(String, ShardEntry)>) -> bool
    decreases s.len(),
{
    s.len() == 0 || (keys_unique(s.drop_last()) && !map_of(s.drop_last()).contains_key(
        s.last().0@,
    ))
}

/// The records that satisfy `p`, in their order.
pub open spec fn keep_where(
    s: Seq<(String, ShardEntry)>,
    p: spec_fn(Seq<char>, ShardEntry) -> bool,
) -> Seq<(String, ShardEntry)>
    decreases s.len(),
{
    if s.len() == 0 {
        s
    } else {
        let sub = keep_where(s.drop_last(), p);
        if p(s.last().0@, s.last().1) {
            sub.push(s.last())
        } else {
            sub
        }
    }
}

/// The part of a mapping whose entries satisfy `p`.
pub open spec fn restrict_to(
    m: Map<Seq<char>, ShardEntry>,
    p: spec_fn(Seq<char>, ShardEntry) -> bool,
) -> Map<Seq<char>, ShardEntry> {
    Map::new(|k: Seq<char>| m.contains_key(k) && p(k, m[k]), |k: Seq<char>| m[k])
}

/// The entries of `m` that are not expired at `now`.
pub open spec fn live_at(m: Map<Seq<char>, ShardEntry>, now: int) -> Map<Seq<char>, ShardEntry> {
    restrict_to(m, |k: Seq<char>, e: ShardEntry| !e.expired_at(now))
}

proof fn lemma_map_of_finite(s: Seq<(String, ShardEntry)>)
    ensures
        map_of(s).dom().finite(),
    decreases s.len(),
{
    if s.len() > 0 {
        lemma_map_of_finite(s.drop_last());
    }
}

proof fn lemma_map_of_len(s: Seq<(String, ShardEntry)>)
    requires
        keys_unique(s),
    ensures
        map_of(s).len() == s.len(),
    decreases s.len(),
{
    if s.len() > 0 {
        lemma_map_of_len(s.drop_last());
        lemma_map_of_finite(s.drop_last());
    }
}

proof fn lemma_map_of_absent(s: Seq<(String, ShardEntry)>, k: Seq<char>)
    requires
        forall|i: int| 0 <= i < s.len() ==> s[i].0@ != k,
    ensures
        !map_of(s).contains_key(k),
    decreases s.len(),
{
    if s.len() > 0 {
        assert(s.last() == s[s.len() - 1]);
        lemma_map_of_absent(s.drop_last(), k);
    }
}

proof fn lemma_map_of_at(s: Seq<(String, ShardEntry)>, i: int)
    requires
        keys_unique(s),
        0 <= i < s.len(),
    ensures
        map_of(s).contains_key(s[i].0@),
        map_of(s)[s[i].0@] == s[i].1,
    decreases s.len(),
{
    if i < s.len() - 1 {
        assert(s.drop_last()[i] == s[i]);
        lemma_map_of_at(s.drop_last(), i);
    }
}

proof fn lemma_keep_where(s: Seq<(String, ShardEntry)>, p: spec_fn(Seq<char>, ShardEntry) -> bool)
    requires
        keys_unique(s),
    ensures
        keys_unique(keep_where(s, p)),
        map_of(keep_where(s, p)) == restrict_to(map_of(s), p),
    decreases s.len(),
{
    if s.len() == 0 {
        assert(map_of(keep_where(s, p)) =~= restrict_to(map_of(s), p));
    } else {
        let d = s.drop_last();
        lemma_keep_where(d, p);
        let sub = keep_where(d, p);
        let (key, e) = s.last();
        if p(key@, e) {
            assert(sub.push(s.last()).drop_last() =~= sub);
            assert(!map_of(sub).contains_key(key@));
        }
        assert(map_of(keep_where(s, p)) =~= restrict_to(map_of(s), p));
    }
}

proof fn lemma_keep_where_step(
    s: Seq<(String, ShardEntry)>,
    j: int,
    p: spec_fn(Seq<char>, ShardEntry) -> bool,
)
    requires
        0 <= j < s.len(),
    ensures
        keep_where(s.take(j + 1), p) == if p(s[j].0@, s[j].1) {
            keep_where(s.take(j), p).push(s[j])
        } else {
            keep_where(s.take(j), p)
        },
{
    assert(s.take(j + 1).drop_last() =~= s.take(j));
}

/// One partition of the key space: a mapping from key to entry.
pub struct Shard {
    entries: Vec<(String, ShardEntry)>,
}

impl View for Shard {
    type V = Map<Seq<char>, ShardEntry>;

    closed spec fn view(&self) -> Map<Seq<char>, ShardEntry> {
        map_of(self.entries@)
    }
}

impl Shard {
    /// The records hold each key once.
    pub closed spec fn wf(&self) -> bool {
        keys_unique(self.entries@)
    }

    /// An empty shard.
    pub fn new() -> (r: Self)
        ensures
            r.wf(),
            r@ == Map::<Seq<char>, ShardEntry>::empty(),
    {
        Shard { entries: Vec::new() }
    }

    /// A shard holding the given records; where a key occurs twice, the later
    /// record wins.
    pub fn new_with_data(data: Vec<(String, ShardEntry)>) -> (r: Self)
        ensures
            r.wf(),
            r@ == map_of(data@),
    {
        let mut shard = Shard::new();
        let mut rest = data;
        let ghost all = rest@;
        let ghost mut j: int = 0;
        while rest.len() > 0
            invariant
                0 <= j <= all.len(),
                rest@ == all.skip(j),
                shard.wf(),
                shard@ == map_of(all.take(j)),
            decreases rest@.len(),
        {
            let (k, e) = rest.remove(0);
            proof {
                assert(all.take(j + 1).drop_last() =~= all.take(j));
                assert(all.skip(j + 1) =~= all.skip(j).remove(0));
                j = j + 1;
            }
            shard.put_entry(k, e);
        }
        assert(all.take(j) =~= all);
        shard
    }

    /// The number of entries.
    pub fn get_length(&self) -> (r: usize)
        requires
            self.wf(),
        ensures
            r == self@.len(),
    {
        proof {
            lemma_map_of_len(self.entries@);
        }
        self.entries.len()
    }

    /// The position of `key` among the records, if it is there.
    fn position(&self, key: &String) -> (r: Option<usize>)
        requires
            self.wf(),
        ensures
            match r {
                Some(i) => i < self.entries@.len() && self.entries@[i as int].0@ == key@,
                None => !self@.contains_key(key@),
            },
    {
        let mut i: usize = 0;
        while i < self.entries.len()
            invariant
                i <= self.entries@.len(),
                forall|j: int| 0 <= j < i ==> self.entries@[j].0@ != key@,
            decreases self.entries@.len() - i,
        {
            if self.entries[i].0 == *key {
                return Some(i);
            }
            i = i + 1;
        }
        proof {
            lemma_map_of_absent(self.entries@, key@);
        }
        None
    }

    /// The entry of `key`, if there is one.
    pub fn get(&self, key: &String) -> (r: Option<&ShardEntry>)
        requires
            self.wf(),
        ensures
            match r {
                Some(e) => self@.contains_key(key@) && *e == self@[key@],
                None => !self@.contains_key(key@),
            },
    {
        match self.position(key) {
            Some(i) => {
                proof {
                    lemma_map_of_at(self.entries@, i as int);
                }
                Some(&self.entries[i].1)
            },
            None => None,
        }
    }

    /// Removes the entry of `key`, if there is one.
    pub fn remove(&mut self, key: &String)
        requires
            old(self).wf(),
        ensures
            final(self).wf(),
            final(self)@ == old(self)@.remove(key@),
    {
        let ghost orig = self.entries@;
        let ghost p = |k: Seq<char>, e: ShardEntry| k != key@;
        let mut i: usize = 0;
        let ghost mut j: int = 0;
        while i < self.entries.len()
            invariant
                forall|k: Seq<char>, e: ShardEntry| #[trigger] p(k, e) == (k != key@),
                0 <= j <= orig.len(),
                self.entries@ == keep_where(orig.take(j), p) + orig.skip(j),
                i == keep_where(orig.take(j), p).len(),
            decreases orig.len() - j,
        {
            let ghost kept = keep_where(orig.take(j), p);
            assert(self.entries@[i as int] == orig[j]);
            if self.entries[i].0 == *key {
                self.entries.remove(i);
                proof {
                    assert(!p(orig[j].0@, orig[j].1));
                    lemma_keep_where_step(orig, j, p);
                    assert(self.entries@ =~= kept + orig.skip(j + 1));
                }
            } else {
                i = i + 1;
                proof {
                    assert(p(orig[j].0@, orig[j].1));
                    lemma_keep_where_step(orig, j, p);
                    assert(self.entries@ =~= kept.push(orig[j]) + orig.skip(j + 1));
                }
            }
            proof {
                j = j + 1;
            }
        }
        proof {
            assert(orig.take(j) =~= orig);
            lemma_keep_where(orig, p);
            assert(self@ =~= old(self)@.remove(key@));
        }
    }

    /// Stores `e` under `key`, replacing any entry that the key had.
    pub fn put_entry(&mut self, key: String, e: ShardEntry)
        requires
            old(self).wf(),
        ensures
            final(self).wf(),
            final(self)@ == old(self)@.insert(key@, e),
    {
        self.remove(&key);
        let ghost before = self.entries@;
        self.entries.push((key, e));
        proof {
            assert(self.entries@.drop_last() =~= before);
            assert(self@ =~= old(self)@.insert(key@, e));
        }
    }

    /// Removes every entry that is expired at `now`.
    pub fn evict_at(&mut self, now: u64)
        requires
            old(self).wf(),
        ensures
            final(self).wf(),
            final(self)@ == live_at(old(self)@, now as int),
    {
        if self.entries.len() == 0 {
            proof {
                assert(self@ =~= live_at(self@, now as int));
            }
            return;
        }
        let ghost orig = self.entries@;
        let ghost p = |k: Seq<char>, e: ShardEntry| !e.expired_at(now as int);
        let mut i: usize = 0;
        let ghost mut j: int = 0;
        while i < self.entries.len()
            invariant
                forall|k: Seq<char>, e: ShardEntry| #[trigger] p(k, e) == !e.expired_at(now as int),
                0 <= j <= orig.len(),
                self.entries@ == keep_where(orig.take(j), p) + orig.skip(j),
                i == keep_where(orig.take(j), p).len(),
            decreases orig.len() - j,
        {
            let ghost kept = keep_where(orig.take(j), p);
            assert(self.entries@[i as int] == orig[j]);
            if self.entries[i].1.is_expired(now) {
                self.entries.remove(i);
                proof {
                    assert(!p(orig[j].0@, orig[j].1));
                    lemma_keep_where_step(orig, j, p);
                    assert(self.entries@ =~= kept + orig.skip(j + 1));
                }
            } else {
                i = i + 1;
                proof {
                    assert(p(orig[j].0@, orig[j].1));
                    lemma_keep_where_step(orig, j, p);
                    assert(self.entries@ =~= kept.push(orig[j]) + orig.skip(j + 1));
                }
            }
            proof {
                j = j + 1;
            }
        }
        proof {
            assert(orig.take(j) =~= orig);
            lemma_keep_where(orig, p);
        }
    }

    /// Removes every entry that is expired now, by the system clock.
    pub fn evict(&mut self)
        requires
            old(self).wf(),
        ensures
            final(self).wf(),
            exists|now: u64| final(self)@ == live_at(old(self)@, now as int),
    {
        let now = crate::entry::now_millis();
        self.evict_at(now);
    }

    /// The records, in storage order, each key once.
    pub fn entries(&self) -> (r: &Vec<(String, ShardEntry)>)
        requires
            self.wf(),
        ensures
            keys_unique(r@),
            map_of(r@) == self@,
    {
        &self.entries
    }

    /// The snapshot file of this shard, given its entries as serialized text:
    /// the text, a newline and the text's checksum. An empty shard has no
    /// snapshot.
    pub fn flush(&self, encoded: &[u8]) -> (r: Option<Vec<u8>>)
        requires
            self.wf(),
        ensures
            self@.len() == 0 ==> r is None,
            self@.len() > 0 ==> (r matches Some(c) && c@ == framed(encoded@, md5_of(encoded@))),
    {
        if self.get_length() == 0 {
            None
        } else {
            Some(frame_snapshot(encoded))
        }
    }
}

} // verus!
