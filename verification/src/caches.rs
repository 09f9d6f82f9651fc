//! The two-level LRU cache hierarchy and the data access manager that
//! composes it with main memory.
//!
//! Each cache level is an LRU queue: an ordered sequence of (key, value)
//! entries with the most recently used at the tail.  A queue is modelled as a
//! sequence of (address value, word) pairs; its keys stay pairwise distinct
//! and its length stays within its capacity (L1 holds 20 entries, L2 holds
//! 50).

use vstd::prelude::*;
use crate::adders::AddSub64bit;
use crate::converter::Converter;
use crate::converter::word_to_vec64;
use crate::main_memory::MainMemory;
use crate::bits::u_val;
use crate::bits::zero_bits;
use crate::bits::lemma_u_val_bound;

verus! {

use vstd::arithmetic::power2::lemma2_to64;

/// One resident cache line.
pub struct CachedObj {
    pub key: [bool; 48],
    pub value: [bool; 64],
}

/// Position of the first entry with key value `k`, or -1.
pub open spec fn key_idx(q: Seq<(nat, Seq<bool>)>, k: nat) -> int
    decreases q.len(),
{
    if q.len() == 0 {
        -1
    } else if q[0].0 == k {
        0
    } else if key_idx(q.subrange(1, q.len() as int), k) == -1 {
        -1
    } else {
        key_idx(q.subrange(1, q.len() as int), k) + 1
    }
}

/// Pairwise-distinct keys.
pub open spec fn q_uniq(q: Seq<(nat, Seq<bool>)>) -> bool {
    forall|i: int, j: int| 0 <= i < j < q.len() ==> (#[trigger] q[i]).0 != (#[trigger] q[j]).0
}

pub proof fn lemma_key_idx_props(q: Seq<(nat, Seq<bool>)>, k: nat)
    ensures
        key_idx(q, k) == -1 ==> forall|j: int| 0 <= j < q.len() ==> (#[trigger] q[j]).0 != k,
        key_idx(q, k) != -1 ==> 0 <= key_idx(q, k) < q.len() && q[key_idx(q, k)].0 == k,
        key_idx(q, k) != -1 ==> forall|j: int| 0 <= j < key_idx(q, k) ==> (#[trigger] q[j]).0 != k,
    decreases q.len(),
{
    if q.len() > 0 {
        let t = q.subrange(1, q.len() as int);
        lemma_key_idx_props(t, k);
        assert(forall|j: int| 1 <= j < q.len() ==> #[trigger] q[j] == t[j - 1]);
    }
}

pub proof fn lemma_key_idx_at(q: Seq<(nat, Seq<bool>)>, k: nat, i: int)
    requires
        0 <= i < q.len(),
        q[i].0 == k,
        forall|j: int| 0 <= j < i ==> (#[trigger] q[j]).0 != k,
    ensures
        key_idx(q, k) == i,
    decreases q.len(),
{
    if i > 0 {
        let t = q.subrange(1, q.len() as int);
        assert(forall|j: int| 0 <= j < i - 1 ==> #[trigger] t[j] == q[j + 1]);
        lemma_key_idx_at(t, k, i - 1);
    }
}

/// An LRU queue bounded by a capacity, with the most recently used entry at
/// the tail.  Key equality is decided arithmetically, by subtracting the two
/// addresses on the word adder and testing the difference against zero.
pub struct CacheQueue {
    pub add_sub64bit: AddSub64bit,
    pub lru_queue: Vec<CachedObj>,
    pub max_size: usize,
}

impl CacheQueue {
    /// The resident entries as (address value, word) pairs, MRU at the tail.
    pub open spec fn entries(self) -> Seq<(nat, Seq<bool>)> {
        Seq::new(
            self.lru_queue@.len(),
            |i: int| (u_val(self.lru_queue@[i].key@), self.lru_queue@[i].value@),
        )
    }

    /// The queue's capacity.
    pub open spec fn capacity(self) -> nat {
        self.max_size as nat
    }

    /// Keys distinct, size within capacity.
    pub open spec fn wf(self) -> bool {
        &&& q_uniq(self.entries())
        &&& self.lru_queue@.len() <= self.max_size
        &&& 1 <= self.max_size <= 0x7fffffff
    }

    /// Builds an empty queue of the given capacity.
    pub fn with_capacity(max_size: usize) -> (r: Self)
        requires
            1 <= max_size <= 0x7fffffff,
        ensures
            r.wf(),
            r.entries() == Seq::<(nat, Seq<bool>)>::empty(),
            r.capacity() == max_size,
    {
        let r = CacheQueue { add_sub64bit: AddSub64bit::default(), lru_queue: Vec::new(), max_size };
        proof {
            assert(r.entries() =~= Seq::<(nat, Seq<bool>)>::empty());
        }
        r
    }

    /// Linear scan: the position of the first entry with the given key, or -1.
    pub fn get_index(&self, key: [bool; 48]) -> (r: i32)
        requires
            self.wf(),
        ensures
            r as int == key_idx(self.entries(), u_val(key@)),
    {
        let ghost k = u_val(key@);
        let n = self.lru_queue.len();
        let key64 = Converter::bit48_to64(key);
        let mut i: usize = 0;
        while i < n
            invariant
                i <= n,
                n == self.lru_queue@.len() <= 0x7fffffff,
                k == u_val(key@),
                u_val(key64@) == k,
                forall|j: int| 0 <= j < i ==> (#[trigger] self.entries()[j]).0 != k,
            decreases n - i,
        {
            let current_val: [bool; 64] = Converter::bit48_to64(self.lru_queue[i].key);
            let (difference, borrow) = self.add_sub64bit.value(current_val, key64, false);
            proof {
                lemma_u_val_bound(current_val@);
                lemma_u_val_bound(key64@);
                lemma_u_val_bound(difference@);
                crate::bits::lemma_s_val_u_val(difference@);
                lemma2_to64();
            }
            if Converter::bin_to_dec_2s_comp(word_to_vec64(difference)) == 0 {
                proof {
                    assert(u_val(current_val@) == k);
                    lemma_key_idx_at(self.entries(), k, i as int);
                }
                return i as i32;
            }
            proof {
                assert(u_val(current_val@) != k);
            }
            i = i + 1;
        }
        proof {
            lemma_key_idx_props(self.entries(), k);
            if key_idx(self.entries(), k) != -1 {
                assert((self.entries()[key_idx(self.entries(), k)]).0 == k);
            }
        }
        -1
    }

    /// Removes the entry at `index`; -1 leaves the queue as it is.
    pub fn flush_loc(&mut self, index: i32)
        requires
            old(self).wf(),
            -1 <= index < old(self).lru_queue@.len(),
        ensures
            final(self).wf(),
            final(self).capacity() == old(self).capacity(),
            index == -1 ==> final(self).entries() == old(self).entries(),
            index >= 0 ==> final(self).entries() == old(self).entries().remove(index as int),
    {
        if index != -1 {
            self.lru_queue.remove(index as usize);
            proof {
                assert(self.entries() =~= old(self).entries().remove(index as int));
                assert(q_uniq(final(self).entries()));
            }
        }
    }

    /// Reads the entry at `index` and promotes it to most recently used; -1
    /// reads as a miss and returns zero.
    pub fn get_value(&mut self, index: i32) -> (r: ([bool; 64], bool))
        requires
            old(self).wf(),
            -1 <= index < old(self).lru_queue@.len(),
        ensures
            final(self).wf(),
            final(self).capacity() == old(self).capacity(),
            index == -1 ==> r.0@ == zero_bits(64) && !r.1 && final(self).entries() == old(self).entries(),
            index >= 0 ==> r.0@ == old(self).entries()[index as int].1 && r.1 && final(self).entries() == old(self).entries().remove(index as int).push(
                old(self).entries()[index as int],
            ),
    {
        if index != -1 {
            let entry = &self.lru_queue[index as usize];
            let key: [bool; 48] = entry.key;
            let val: [bool; 64] = entry.value;
            self.lru_queue.remove(index as usize);
            self.lru_queue.push(CachedObj { key, value: val });
            proof {
                assert(self.entries() =~= old(self).entries().remove(index as int).push(
                    old(self).entries()[index as int],
                ));
                assert(q_uniq(final(self).entries()));
            }
            return (val, true);
        }
        let zero: [bool; 64] = [false; 64];
        proof {
            assert(zero@ =~= zero_bits(64));
        }
        (zero, false)
    }

    /// Inserts (key, val): a present key is moved to the tail with the new
    /// word; at capacity the head is evicted and handed back, and the new
    /// entry is not kept; otherwise the entry is appended at the tail.
    pub fn insert(&mut self, key: [bool; 48], val: [bool; 64]) -> (r: (CachedObj, bool))
        requires
            old(self).wf(),
        ensures
            final(self).wf(),
            final(self).capacity() == old(self).capacity(),
            key_idx(old(self).entries(), u_val(key@)) >= 0 ==> !r.1 && final(self).entries() == old(self).entries().remove(key_idx(old(self).entries(), u_val(key@))).push(
                (u_val(key@), val@),
            ),
            key_idx(old(self).entries(), u_val(key@)) == -1 && old(self).entries().len() == old(self).capacity() ==> r.1 && final(self).entries() == old(self).entries().subrange(
                1,
                old(self).entries().len() as int,
            ) && u_val(r.0.key@) == old(self).entries()[0].0 && r.0.value@ == old(self).entries()[0].1,
            key_idx(old(self).entries(), u_val(key@)) == -1 && old(self).entries().len() < old(self).capacity() ==> !r.1 && final(self).entries() == old(self).entries().push(
                (u_val(key@), val@),
            ),
    {
        let ghost k = u_val(key@);
        let index = self.get_index(key);
        proof {
            lemma_key_idx_props(self.entries(), k);
        }
        if index != -1 {
            self.lru_queue.remove(index as usize);
            self.lru_queue.push(CachedObj { key, value: val });
            proof {
                assert(self.entries() =~= old(self).entries().remove(index as int).push(
                    (k, val@),
                ));
                assert(q_uniq(final(self).entries())) by {
                    assert(forall|j: int|
                        0 <= j < old(self).entries().len() && j != index ==> (#[trigger] old(self).entries()[j]).0 != k);
                }
            }
        } else {
            if self.lru_queue.len() == self.max_size {
                let head = &self.lru_queue[0];
                let flow_key: [bool; 48] = head.key;
                let flow_val: [bool; 64] = head.value;
                self.lru_queue.remove(0);
                proof {
                    assert(self.entries() =~= old(self).entries().subrange(
                        1,
                        old(self).entries().len() as int,
                    ));
                    assert(q_uniq(final(self).entries()));
                }
                return (CachedObj { key: flow_key, value: flow_val }, true);
            }
            self.lru_queue.push(CachedObj { key, value: val });
            proof {
                assert(self.entries() =~= old(self).entries().push((k, val@)));
                assert(q_uniq(final(self).entries()));
            }
        }
        let none: [bool; 48] = [false; 48];
        let zero: [bool; 64] = [false; 64];
        (CachedObj { key: none, value: zero }, false)
    }
}

/// The first-level cache: an LRU queue of capacity 20.
pub struct L1Cache {
    pub cache_queue: CacheQueue,
}

impl L1Cache {
    pub open spec fn entries(self) -> Seq<(nat, Seq<bool>)> {
        self.cache_queue.entries()
    }

    pub open spec fn wf(self) -> bool {
        self.cache_queue.wf() && self.cache_queue.capacity() == 20
    }

    pub fn get_index(&self, key: [bool; 48]) -> (r: i32)
        requires
            self.wf(),
        ensures
            r as int == key_idx(self.entries(), u_val(key@)),
    {
        self.cache_queue.get_index(key)
    }

    pub fn flush_loc(&mut self, index: i32)
        requires
            old(self).wf(),
            -1 <= index < old(self).entries().len(),
        ensures
            final(self).wf(),
            index == -1 ==> final(self).entries() == old(self).entries(),
            index >= 0 ==> final(self).entries() == old(self).entries().remove(index as int),
    {
        self.cache_queue.flush_loc(index);
    }

    pub fn get_value(&mut self, index: i32) -> (r: ([bool; 64], bool))
        requires
            old(self).wf(),
            -1 <= index < old(self).entries().len(),
        ensures
            final(self).wf(),
            index == -1 ==> r.0@ == zero_bits(64) && !r.1 && final(self).entries() == old(self).entries(),
            index >= 0 ==> r.0@ == old(self).entries()[index as int].1 && r.1 && final(self).entries() == old(self).entries().remove(index as int).push(
                old(self).entries()[index as int],
            ),
    {
        self.cache_queue.get_value(index)
    }

    pub fn insert(&mut self, key: [bool; 48], val: [bool; 64]) -> (r: (CachedObj, bool))
        requires
            old(self).wf(),
        ensures
            final(self).wf(),
            key_idx(old(self).entries(), u_val(key@)) >= 0 ==> !r.1 && final(self).entries() == old(self).entries().remove(key_idx(old(self).entries(), u_val(key@))).push(
                (u_val(key@), val@),
            ),
            key_idx(old(self).entries(), u_val(key@)) == -1 && old(self).entries().len() == 20
                ==> r.1 && final(self).entries() == old(self).entries().subrange(
                1,
                old(self).entries().len() as int,
            ) && u_val(r.0.key@) == old(self).entries()[0].0 && r.0.value@ == old(self).entries()[0].1,
            key_idx(old(self).entries(), u_val(key@)) == -1 && old(self).entries().len() < 20
                ==> !r.1 && final(self).entries() == old(self).entries().push((u_val(key@), val@)),
    {
        self.cache_queue.insert(key, val)
    }
}

impl Default for L1Cache {
    fn default() -> (r: Self)
        ensures
            r.wf(),
            r.entries() == Seq::<(nat, Seq<bool>)>::empty(),
    {
        L1Cache { cache_queue: CacheQueue::with_capacity(20) }
    }
}

/// The second-level cache: an LRU queue of capacity 50.
pub struct L2Cache {
    pub cache_queue: CacheQueue,
}

impl L2Cache {
    pub open spec fn entries(self) -> Seq<(nat, Seq<bool>)> {
        self.cache_queue.entries()
    }

    pub open spec fn wf(self) -> bool {
        self.cache_queue.wf() && self.cache_queue.capacity() == 50
    }

    pub fn get_index(&self, target: [bool; 48]) -> (r: i32)
        requires
            self.wf(),
        ensures
            r as int == key_idx(self.entries(), u_val(target@)),
    {
        self.cache_queue.get_index(target)
    }

    pub fn flush_loc(&mut self, index: i32)
        requires
            old(self).wf(),
            -1 <= index < old(self).entries().len(),
        ensures
            final(self).wf(),
            index == -1 ==> final(self).entries() == old(self).entries(),
            index >= 0 ==> final(self).entries() == old(self).entries().remove(index as int),
    {
        self.cache_queue.flush_loc(index);
    }

    pub fn get_value(&mut self, index: i32) -> (r: ([bool; 64], bool))
        requires
            old(self).wf(),
            -1 <= index < old(self).entries().len(),
        ensures
            final(self).wf(),
            index == -1 ==> r.0@ == zero_bits(64) && !r.1 && final(self).entries() == old(self).entries(),
            index >= 0 ==> r.0@ == old(self).entries()[index as int].1 && r.1 && final(self).entries() == old(self).entries().remove(index as int).push(
                old(self).entries()[index as int],
            ),
    {
        self.cache_queue.get_value(index)
    }

    pub fn insert(&mut self, key: [bool; 48], val: [bool; 64]) -> (r: (CachedObj, bool))
        requires
            old(self).wf(),
        ensures
            final(self).wf(),
            key_idx(old(self).entries(), u_val(key@)) >= 0 ==> !r.1 && final(self).entries() == old(self).entries().remove(key_idx(old(self).entries(), u_val(key@))).push(
                (u_val(key@), val@),
            ),
            key_idx(old(self).entries(), u_val(key@)) == -1 && old(self).entries().len() == 50
                ==> r.1 && final(self).entries() == old(self).entries().subrange(
                1,
                old(self).entries().len() as int,
            ),
            key_idx(old(self).entries(), u_val(key@)) == -1 && old(self).entries().len() < 50
                ==> !r.1 && final(self).entries() == old(self).entries().push((u_val(key@), val@)),
    {
        self.cache_queue.insert(key, val)
    }
}

impl Default for L2Cache {
    fn default() -> (r: Self)
        ensures
            r.wf(),
            r.entries() == Seq::<(nat, Seq<bool>)>::empty(),
    {
        L2Cache { cache_queue: CacheQueue::with_capacity(50) }
    }
}

/// What the hierarchy holds for address value `k`: the L1 word if resident
/// there, else the L2 word, else nothing.
pub open spec fn dam_cached(d: DataAccessManager, k: nat) -> Option<Seq<bool>> {
    if key_idx(d.l1_cache.entries(), k) >= 0 {
        Some(d.l1_cache.entries()[key_idx(d.l1_cache.entries(), k)].1)
    } else if key_idx(d.l2_cache.entries(), k) >= 0 {
        Some(d.l2_cache.entries()[key_idx(d.l2_cache.entries(), k)].1)
    } else {
        None
    }
}

/// Whether a cached read of `k` hits.
pub open spec fn dam_read_hit(d: DataAccessManager, k: nat) -> bool {
    dam_cached(d, k) is Some
}

/// The word a cached read of `k` returns; a miss reads as zero while the
/// request goes to memory.
pub open spec fn dam_read_value(d: DataAccessManager, k: nat) -> Seq<bool> {
    match dam_cached(d, k) {
        Some(v) => v,
        None => zero_bits(64),
    }
}

/// An insert of `k` lands in the cache when `k` is already in L1 or L1 has
/// room; otherwise the hierarchy only makes room and drops the new entry,
/// and the write-through to memory is the backstop.
pub open spec fn dam_insert_lands(d: DataAccessManager, k: nat) -> bool {
    key_idx(d.l1_cache.entries(), k) >= 0 || d.l1_cache.entries().len() < 20
}

/// How a cache fill of (k, v) transforms the hierarchy, per its placement
/// rules: an L1-resident key is overwritten in place and moved to L1's tail;
/// an L2-resident key is flushed from L2 and appended to L1; a fresh key is
/// appended to L1 when it has room.  A full L1 instead evicts its head into
/// L2 and drops the new entry (the write-through is the backstop), so the
/// fill lands exactly when `dam_insert_lands` held.
pub open spec fn dam_fill_post(
    pre: DataAccessManager,
    post: DataAccessManager,
    k: nat,
    v: Seq<bool>,
) -> bool {
    &&& (dam_insert_lands(pre, k) ==> dam_cached(post, k) == Some(v))
    &&& (key_idx(pre.l1_cache.entries(), k) >= 0 ==> {
        &&& post.l1_cache.entries() == pre.l1_cache.entries().remove(
            key_idx(pre.l1_cache.entries(), k),
        ).push((k, v))
        &&& post.l2_cache.entries() == pre.l2_cache.entries()
    })
    &&& (key_idx(pre.l1_cache.entries(), k) == -1 && pre.l1_cache.entries().len() < 20 && key_idx(
        pre.l2_cache.entries(),
        k,
    ) == -1 ==> {
        &&& post.l1_cache.entries() == pre.l1_cache.entries().push((k, v))
        &&& post.l2_cache.entries() == pre.l2_cache.entries()
    })
    &&& (key_idx(pre.l1_cache.entries(), k) == -1 && pre.l1_cache.entries().len() < 20 && key_idx(
        pre.l2_cache.entries(),
        k,
    ) >= 0 ==> {
        &&& post.l1_cache.entries() == pre.l1_cache.entries().push((k, v))
        &&& post.l2_cache.entries() == pre.l2_cache.entries().remove(
            key_idx(pre.l2_cache.entries(), k),
        )
    })
    &&& (key_idx(pre.l1_cache.entries(), k) == -1 && pre.l1_cache.entries().len() == 20
        ==> post.l1_cache.entries() == pre.l1_cache.entries().subrange(1, 20))
    &&& (key_idx(pre.l1_cache.entries(), k) == -1 && pre.l1_cache.entries().len() == 20 && (
    key_idx(pre.l2_cache.entries(), k) >= 0 || pre.l2_cache.entries().len() < 50) ==> key_idx(
        post.l2_cache.entries(),
        pre.l1_cache.entries()[0].0,
    ) >= 0)
}

/// Composes L1, L2 and main memory.
pub struct DataAccessManager {
    pub l1_cache: L1Cache,
    pub l2_cache: L2Cache,
    pub main_memory: MainMemory,
}

impl DataAccessManager {
    pub open spec fn wf(self) -> bool {
        self.l1_cache.wf() && self.l2_cache.wf() && self.main_memory.inv()
    }

    /// Returns (index, cache (1/2)); (-1, -1) when the key is in neither.
    pub fn get_index(&self, key: [bool; 48]) -> (r: (i32, i32))
        requires
            self.wf(),
        ensures
            key_idx(self.l1_cache.entries(), u_val(key@)) >= 0 ==> r == (
                key_idx(self.l1_cache.entries(), u_val(key@)) as i32,
                1i32,
            ),
            key_idx(self.l1_cache.entries(), u_val(key@)) == -1 && key_idx(
                self.l2_cache.entries(),
                u_val(key@),
            ) >= 0 ==> r == (key_idx(self.l2_cache.entries(), u_val(key@)) as i32, 2i32),
            key_idx(self.l1_cache.entries(), u_val(key@)) == -1 && key_idx(
                self.l2_cache.entries(),
                u_val(key@),
            ) == -1 ==> r == (-1i32, -1i32),
    {
        proof {
            lemma_key_idx_props(self.l1_cache.entries(), u_val(key@));
            lemma_key_idx_props(self.l2_cache.entries(), u_val(key@));
        }
        let l1_index = self.l1_cache.get_index(key);
        if l1_index != -1 {
            return (l1_index, 1);
        }
        let l2_index = self.l2_cache.get_index(key);
        if l2_index != -1 {
            return (l2_index, 2);
        }
        (-1, -1)
    }

    /// A cached read: an L1 or L2 hit promotes the line and returns its word
    /// with `true`; a miss posts a load request on the buses and returns zero
    /// with `false`, and the caller must stall for the reply.
    pub fn read(&mut self, key: [bool; 48]) -> (r: ([bool; 64], bool))
        requires
            old(self).wf(),
            !old(self).main_memory.control_bus.lock,
        ensures
            final(self).wf(),
            !final(self).main_memory.control_bus.lock,
            r.0@ == dam_read_value(*old(self), u_val(key@)),
            r.1 == dam_read_hit(*old(self), u_val(key@)),
            final(self).main_memory.ram_map@ == old(self).main_memory.ram_map@,
            dam_read_hit(*old(self), u_val(key@)) ==> {
                &&& final(self).main_memory == old(self).main_memory
                &&& dam_cached(*final(self), u_val(key@)) == dam_cached(*old(self), u_val(key@))
            },
            key_idx(old(self).l1_cache.entries(), u_val(key@)) >= 0 ==> {
                &&& final(self).l1_cache.entries() == old(self).l1_cache.entries().remove(
                    key_idx(old(self).l1_cache.entries(), u_val(key@)),
                ).push(
                    old(self).l1_cache.entries()[key_idx(
                        old(self).l1_cache.entries(),
                        u_val(key@),
                    )],
                )
                &&& final(self).l2_cache.entries() == old(self).l2_cache.entries()
            },
            key_idx(old(self).l1_cache.entries(), u_val(key@)) == -1 && key_idx(
                old(self).l2_cache.entries(),
                u_val(key@),
            ) >= 0 ==> {
                &&& final(self).l2_cache.entries() == old(self).l2_cache.entries().remove(
                    key_idx(old(self).l2_cache.entries(), u_val(key@)),
                ).push(
                    old(self).l2_cache.entries()[key_idx(
                        old(self).l2_cache.entries(),
                        u_val(key@),
                    )],
                )
                &&& final(self).l1_cache.entries() == old(self).l1_cache.entries()
            },
            !dam_read_hit(*old(self), u_val(key@)) ==> {
                &&& final(self).l1_cache.entries() == old(self).l1_cache.entries()
                &&& final(self).l2_cache.entries() == old(self).l2_cache.entries()
                &&& final(self).main_memory.address_bus.bits@ == key@
                &&& !final(self).main_memory.control_bus.str
                &&& final(self).main_memory.control_bus.ready_memory
                &&& final(self).main_memory.control_bus.ready_cpu == old(self).main_memory.control_bus.ready_cpu
                &&& final(self).main_memory.data_bus == old(self).main_memory.data_bus
            },
    {
        let ghost k = u_val(key@);
        proof {
            lemma_key_idx_props(old(self).l1_cache.entries(), k);
            lemma_key_idx_props(old(self).l2_cache.entries(), k);
        }
        let (index, level) = self.get_index(key);
        if level == 1 {
            let r = self.l1_cache.get_value(index);
            proof {
                let q1 = old(self).l1_cache.entries();
                let i = key_idx(q1, k);
                let q2 = q1.remove(i).push(q1[i]);
                assert(q2[q2.len() - 1].0 == k);
                assert(forall|j: int|
                    0 <= j < q2.len() - 1 ==> (#[trigger] q2[j]) == (if j < i {
                        q1[j]
                    } else {
                        q1[j + 1]
                    }));
                lemma_key_idx_at(q2, k, q2.len() - 1);
            }
            r
        } else if level == 2 {
            let r = self.l2_cache.get_value(index);
            proof {
                let q1 = old(self).l2_cache.entries();
                let i = key_idx(q1, k);
                let q2 = q1.remove(i).push(q1[i]);
                assert(q2[q2.len() - 1].0 == k);
                assert(forall|j: int|
                    0 <= j < q2.len() - 1 ==> (#[trigger] q2[j]) == (if j < i {
                        q1[j]
                    } else {
                        q1[j + 1]
                    }));
                lemma_key_idx_at(q2, k, q2.len() - 1);
            }
            r
        } else {
            self.main_memory.control_bus.lock = true;
            self.main_memory.address_bus.bits = key;
            self.main_memory.control_bus.str = false;
            self.main_memory.control_bus.ready_memory = true;
            self.main_memory.control_bus.lock = false;
            let zero: [bool; 64] = [false; 64];
            proof {
                assert(zero@ =~= zero_bits(64));
            }
            (zero, false)
        }
    }

    /// Places (key, val) in the hierarchy: an L1-resident key is overwritten
    /// in place; an L2-resident key moves up to L1; a new key goes to L1.
    /// When L1 is full its head cascades to L2 and the new entry is dropped
    /// (the write-through in `write` is the backstop).
    pub fn insert_to_cache(&mut self, key: [bool; 48], val: [bool; 64])
        requires
            old(self).wf(),
        ensures
            final(self).wf(),
            final(self).main_memory == old(self).main_memory,
            dam_fill_post(*old(self), *final(self), u_val(key@), val@),
    {
        let ghost k = u_val(key@);
        proof {
            lemma_key_idx_props(old(self).l1_cache.entries(), k);
            lemma_key_idx_props(old(self).l2_cache.entries(), k);
        }
        let (index, level) = self.get_index(key);
        if level == 1 {
            self.l1_cache.insert(key, val);
            proof {
                let q1 = old(self).l1_cache.entries();
                let i = key_idx(q1, k);
                let q2 = q1.remove(i).push((k, val@));
                assert(q2[q2.len() - 1].0 == k);
                assert(forall|j: int|
                    0 <= j < q2.len() - 1 ==> (#[trigger] q2[j]) == (if j < i {
                        q1[j]
                    } else {
                        q1[j + 1]
                    }));
                lemma_key_idx_at(q2, k, q2.len() - 1);
            }
        } else if level == 2 {
            self.l2_cache.flush_loc(index);
            let (obj, valid) = self.l1_cache.insert(key, val);
            if valid {
                let ghost hk = u_val(obj.key@);
                let ghost q2pre = self.l2_cache.entries();
                self.l2_cache.insert(obj.key, obj.value);
                proof {
                    lemma_key_idx_props(q2pre, hk);
                    let q2 = self.l2_cache.entries();
                    if key_idx(q2pre, hk) >= 0 || q2pre.len() < 50 {
                        assert(q2[q2.len() - 1].0 == hk);
                        lemma_key_idx_props(q2, hk);
                        if key_idx(q2, hk) == -1 {
                            assert((q2[q2.len() - 1]).0 != hk);
                        }
                    }
                }
            } else {
                proof {
                    let q2 = old(self).l1_cache.entries().push((k, val@));
                    assert(q2[q2.len() - 1].0 == k);
                    lemma_key_idx_at(q2, k, q2.len() - 1);
                }
            }
        } else {
            let (obj, valid) = self.l1_cache.insert(key, val);
            if valid {
                let ghost hk = u_val(obj.key@);
                let ghost q2pre = self.l2_cache.entries();
                self.l2_cache.insert(obj.key, obj.value);
                proof {
                    lemma_key_idx_props(q2pre, hk);
                    let q2 = self.l2_cache.entries();
                    if key_idx(q2pre, hk) >= 0 || q2pre.len() < 50 {
                        assert(q2[q2.len() - 1].0 == hk);
                        lemma_key_idx_props(q2, hk);
                        if key_idx(q2, hk) == -1 {
                            assert((q2[q2.len() - 1]).0 != hk);
                        }
                    }
                }
            } else {
                proof {
                    let q2 = old(self).l1_cache.entries().push((k, val@));
                    assert(q2[q2.len() - 1].0 == k);
                    lemma_key_idx_at(q2, k, q2.len() - 1);
                }
            }
        }
    }

    /// A store: places the word in the cache, then posts a write-through
    /// store request on the buses.
    pub fn write(&mut self, key: [bool; 48], val: [bool; 64])
        requires
            old(self).wf(),
            !old(self).main_memory.control_bus.lock,
        ensures
            final(self).wf(),
            !final(self).main_memory.control_bus.lock,
            dam_fill_post(*old(self), *final(self), u_val(key@), val@),
            final(self).main_memory.ram_map@ == old(self).main_memory.ram_map@,
            final(self).main_memory.address_bus.bits@ == key@,
            final(self).main_memory.data_bus.bits@ == val@,
            final(self).main_memory.control_bus.str,
            final(self).main_memory.control_bus.ready_memory,
            final(self).main_memory.control_bus.ready_cpu == old(self).main_memory.control_bus.ready_cpu,
    {
        self.insert_to_cache(key, val);
        self.main_memory.control_bus.lock = true;
        self.main_memory.address_bus.bits = key;
        self.main_memory.data_bus.bits = val;
        self.main_memory.control_bus.str = true;
        self.main_memory.control_bus.ready_memory = true;
        self.main_memory.control_bus.lock = false;
    }

    /// Polls for a memory reply: when one is ready, captures it, fills the
    /// cache with it, clears the buses and returns (true, word); otherwise
    /// returns (false, zero) and changes nothing.
    pub fn stall_read(&mut self) -> (r: (bool, [bool; 64]))
        requires
            old(self).wf(),
            !old(self).main_memory.control_bus.lock,
        ensures
            final(self).wf(),
            !final(self).main_memory.control_bus.lock,
            r.0 == old(self).main_memory.control_bus.ready_cpu,
            final(self).main_memory.ram_map@ == old(self).main_memory.ram_map@,
            !old(self).main_memory.control_bus.ready_cpu ==> *final(self) == *old(self) && r.1@
                == zero_bits(64),
            old(self).main_memory.control_bus.ready_cpu ==> {
                &&& r.1@ == old(self).main_memory.data_bus.bits@
                &&& !final(self).main_memory.control_bus.ready_cpu
                &&& final(self).main_memory.address_bus.bits@ == zero_bits(48)
                &&& final(self).main_memory.data_bus.bits@ == zero_bits(64)
                &&& final(self).main_memory.control_bus.ready_memory == old(self).main_memory.control_bus.ready_memory
                &&& final(self).main_memory.control_bus.str == old(self).main_memory.control_bus.str
                &&& dam_fill_post(
                    *old(self),
                    *final(self),
                    u_val(old(self).main_memory.address_bus.bits@),
                    old(self).main_memory.data_bus.bits@,
                )
            },
    {
        self.main_memory.control_bus.lock = true;
        let ready = self.main_memory.control_bus.ready_cpu;
        let mut return_data: [bool; 64] = [false; 64];
        proof {
            assert(return_data@ =~= zero_bits(64));
        }
        if ready {
            self.main_memory.control_bus.ready_cpu = false;
            let return_addr: [bool; 48] = self.main_memory.address_bus.bits;
            return_data = self.main_memory.data_bus.bits;
            self.insert_to_cache(return_addr, return_data);
            self.main_memory.address_bus.bits = [false; 48];
            self.main_memory.data_bus.bits = [false; 64];
            proof {
                assert(self.main_memory.address_bus.bits@ =~= zero_bits(48));
                assert(self.main_memory.data_bus.bits@ =~= zero_bits(64));
            }
        }
        self.main_memory.control_bus.lock = false;
        (ready, return_data)
    }
}

/// LRU law: one touched operation, modelled as removing the touched entry
/// and pushing it (or its replacement) at the tail, leaves the touched entry
/// as the most recently used, keeps the queue's length, and keeps every
/// other entry in its former relative order.
pub proof fn lemma_lru_touch_moves_to_tail(q: Seq<(nat, Seq<bool>)>, i: int, e: (nat, Seq<bool>))
    requires
        0 <= i < q.len(),
    ensures
        q.remove(i).push(e).len() == q.len(),
        q.remove(i).push(e).last() == e,
        forall|j: int| 0 <= j < i ==> q.remove(i).push(e)[j] == q[j],
        forall|j: int| i <= j < q.len() - 1 ==> q.remove(i).push(e)[j] == q[j + 1],
{
}

/// Capacity law: in a well-formed hierarchy, L1 holds at most 20 entries
/// and L2 at most 50, whatever sequence of reads and inserts produced it;
/// every operation above both requires and re-establishes `wf`.
pub proof fn lemma_capacity_bounds(d: DataAccessManager)
    requires
        d.wf(),
    ensures
        d.l1_cache.entries().len() <= 20,
        d.l2_cache.entries().len() <= 50,
{
}

/// Write-then-read law: when a write of (k, v) has landed in the cache —
/// `write`'s contract says it does whenever k was L1-resident or L1 had room
/// — an immediately following read of k hits and returns exactly v.
pub proof fn lemma_write_then_read(d: DataAccessManager, k: nat, v: Seq<bool>)
    requires
        dam_cached(d, k) == Some(v),
    ensures
        dam_read_hit(d, k),
        dam_read_value(d, k) == v,
{
}

} // verus!
