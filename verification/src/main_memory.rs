//! Main memory: a sparse store of 64-bit words at word-aligned 48-bit
//! addresses, answering requests posted on the buses.
//!
//! Entries live in a vector with pairwise-distinct address values, so the
//! store reads as a map from address value to word; an absent address reads
//! as zero.  Values are kept in individual DRAM cells rather than as plain
//! booleans.

use vstd::prelude::*;
use crate::memory_chips::DRAM;
use crate::buses::AddressBus;
use crate::buses::ControlBus;
use crate::buses::DataBus;
use crate::converter::Converter;
use crate::bits::u_val;
use crate::bits::zero_bits;
use crate::bits::lemma_u_val_bound;
use crate::bits::lemma_u_val_injective;

verus! {

use vstd::arithmetic::power2::pow2;
use vstd::arithmetic::power2::lemma2_to64;
use vstd::arithmetic::power2::lemma2_to64_rest;

/// One resident word: a 48-bit address and 64 DRAM cells.
pub struct MemEntry {
    pub key: [bool; 48],
    pub cells: [DRAM; 64],
}

/// The word an entry holds.
pub open spec fn entry_bits(e: MemEntry) -> Seq<bool> {
    Seq::new(64, |i: int| e.cells@[i].charge)
}

/// Whether some entry carries the address value `u`.
pub open spec fn mem_has(s: Seq<MemEntry>, u: nat) -> bool
    decreases s.len(),
{
    if s.len() == 0 {
        false
    } else if u_val(s[0].key@) == u {
        true
    } else {
        mem_has(s.subrange(1, s.len() as int), u)
    }
}

/// The word stored at address value `u`; an absent address reads as zero.
pub open spec fn mem_get(s: Seq<MemEntry>, u: nat) -> Seq<bool>
    decreases s.len(),
{
    if s.len() == 0 {
        zero_bits(64)
    } else if u_val(s[0].key@) == u {
        entry_bits(s[0])
    } else {
        mem_get(s.subrange(1, s.len() as int), u)
    }
}

/// Pairwise-distinct address values.
pub open spec fn mem_uniq(s: Seq<MemEntry>) -> bool {
    forall|i: int, j: int|
        0 <= i < j < s.len() ==> u_val(#[trigger] s[i].key@) != u_val(#[trigger] s[j].key@)
}

pub proof fn lemma_mem_has_index(s: Seq<MemEntry>, u: nat)
    ensures
        mem_has(s, u) <==> exists|i: int| 0 <= i < s.len() && u_val(#[trigger] s[i].key@) == u,
    decreases s.len(),
{
    if s.len() > 0 {
        let t = s.subrange(1, s.len() as int);
        lemma_mem_has_index(t, u);
        if u_val(s[0].key@) == u {
            assert(0 <= 0 < s.len() && u_val(s[0].key@) == u);
        } else if mem_has(s, u) {
            let i = choose|i: int| 0 <= i < t.len() && u_val(#[trigger] t[i].key@) == u;
            assert(s[i + 1] == t[i]);
        } else {
            assert(forall|i: int|
                1 <= i < s.len() ==> u_val(#[trigger] s[i].key@) == u_val(t[i - 1].key@));
        }
    }
}

pub proof fn lemma_mem_push(s: Seq<MemEntry>, e: MemEntry, u: nat)
    ensures
        mem_has(s.push(e), u) == (mem_has(s, u) || u_val(e.key@) == u),
        mem_get(s.push(e), u) == if mem_has(s, u) {
            mem_get(s, u)
        } else if u_val(e.key@) == u {
            entry_bits(e)
        } else {
            zero_bits(64)
        },
    decreases s.len(),
{
    reveal_with_fuel(mem_has, 3);
    reveal_with_fuel(mem_get, 3);
    let sp = s.push(e);
    if s.len() == 0 {
        assert(sp.subrange(1, 1) =~= Seq::<MemEntry>::empty());
        assert(sp[0] == e);
    } else {
        let t = s.subrange(1, s.len() as int);
        assert(sp[0] == s[0]);
        assert(sp.subrange(1, sp.len() as int) =~= t.push(e));
        lemma_mem_push(t, e, u);
        assert(mem_has(sp, u) == (u_val(s[0].key@) == u || mem_has(t.push(e), u)));
        if u_val(s[0].key@) != u {
            assert(mem_get(sp, u) == mem_get(t.push(e), u));
            assert(mem_get(s, u) == mem_get(t, u));
            assert(mem_has(s, u) == mem_has(t, u));
        }
    }
}

pub proof fn lemma_mem_remove(s: Seq<MemEntry>, i: int, u: nat)
    requires
        mem_uniq(s),
        0 <= i < s.len(),
    ensures
        u_val(s[i].key@) == u ==> !mem_has(s.remove(i), u),
        u_val(s[i].key@) != u ==> mem_has(s.remove(i), u) == mem_has(s, u) && mem_get(
            s.remove(i),
            u,
        ) == mem_get(s, u),
        mem_uniq(s.remove(i)),
    decreases s.len(),
{
    assert(forall|a: int|
        0 <= a < s.len() - 1 ==> s.remove(i)[a] == (if a < i {
            s[a]
        } else {
            s[a + 1]
        }));
    if u_val(s[i].key@) == u {
        lemma_mem_has_index(s.remove(i), u);
        if mem_has(s.remove(i), u) {
            let j = choose|j: int|
                0 <= j < s.remove(i).len() && u_val(#[trigger] s.remove(i)[j].key@) == u;
        }
    } else {
        if i == 0 {
            assert(s.remove(0) =~= s.subrange(1, s.len() as int));
        } else {
            let t = s.subrange(1, s.len() as int);
            assert(mem_uniq(t)) by {
                assert(forall|a: int, b: int|
                    0 <= a < b < t.len() ==> u_val(#[trigger] t[a].key@) == u_val(s[a + 1].key@)
                        && u_val(#[trigger] t[b].key@) == u_val(s[b + 1].key@));
            }
            lemma_mem_remove(t, i - 1, u);
            assert(s.remove(i).subrange(1, s.len() - 1) =~= t.remove(i - 1));
        }
    }
}

pub proof fn lemma_mem_absent(s: Seq<MemEntry>, u: nat)
    requires
        !mem_has(s, u),
    ensures
        mem_get(s, u) == zero_bits(64),
    decreases s.len(),
{
    if s.len() > 0 {
        lemma_mem_absent(s.subrange(1, s.len() as int), u);
    }
}

/// Where an address rounds to: itself when it is a multiple of 64, else up
/// to the next multiple of 64 (kept modulo 2^48).
pub open spec fn align48(u: nat) -> nat {
    if u % 64 == 0 {
        u
    } else {
        ((u / 64 + 1) * 64) % 0x1000000000000
    }
}

pub struct MainMemory {
    pub ram_map: Vec<MemEntry>,
    pub data_bus: DataBus,
    pub address_bus: AddressBus,
    pub control_bus: ControlBus,
}

/// One memory-controller cycle: with no request posted nothing moves; a
/// posted store writes the data bus to the aligned address and drops the
/// store flag; a posted load answers on the data bus and raises `ready_cpu`.
pub open spec fn mem_tick_post(pre: MainMemory, post: MainMemory) -> bool {
    &&& !post.control_bus.lock
    &&& (!pre.control_bus.ready_memory ==> post == pre)
    &&& (pre.control_bus.ready_memory ==> !post.control_bus.ready_memory && post.address_bus
        == pre.address_bus)
    &&& (pre.control_bus.ready_memory && pre.control_bus.str ==> {
        &&& !post.control_bus.str
        &&& post.control_bus.ready_cpu == pre.control_bus.ready_cpu
        &&& post.data_bus == pre.data_bus
        &&& mem_get(post.ram_map@, align48(u_val(pre.address_bus.bits@)))
            == pre.data_bus.bits@
        &&& forall|u: nat|
            u != align48(u_val(pre.address_bus.bits@)) ==> #[trigger] mem_get(post.ram_map@, u)
                == mem_get(pre.ram_map@, u)
    })
    &&& (pre.control_bus.ready_memory && !pre.control_bus.str ==> {
        &&& post.control_bus.str == pre.control_bus.str
        &&& post.control_bus.ready_cpu
        &&& post.ram_map@ == pre.ram_map@
        &&& post.data_bus.bits@ == mem_get(
            pre.ram_map@,
            align48(u_val(pre.address_bus.bits@)),
        )
    })
}

impl MainMemory {
    /// The store's keys are pairwise distinct.
    pub open spec fn inv(self) -> bool {
        mem_uniq(self.ram_map@)
    }

    /// Moves addresses to the valid 64-bit word start.
    pub fn get_valid_start(loc: [bool; 48]) -> (r: [bool; 48])
        ensures
            u_val(r@) == align48(u_val(loc@)),
    {
        proof {
            lemma_u_val_bound(loc@);
            lemma2_to64();
            lemma2_to64_rest();
        }
        let mut loc_vec: Vec<bool> = Vec::new();
        let mut i: usize = 0;
        while i < 48
            invariant
                i <= 48,
                loc_vec@.len() == i,
                forall|j: int| 0 <= j < i ==> loc_vec@[j] == loc@[j],
            decreases 48 - i,
        {
            loc_vec.push(loc[i]);
            i = i + 1;
        }
        proof {
            assert(loc_vec@ =~= loc@);
        }
        let u = Converter::bin_to_dec_pos_only(loc_vec);
        if u % 64 == 0 {
            loc
        } else {
            let round_up: u64 = (u / 64 + 1) * 64;
            let bits = Converter::dec_to_bin_pos_only(round_up, 48);
            let mut out: [bool; 48] = [false; 48];
            let mut i: usize = 0;
            while i < 48
                invariant
                    i <= 48,
                    bits@.len() == 48,
                    forall|j: int| 0 <= j < i ==> out@[j] == bits@[j],
                decreases 48 - i,
            {
                out[i] = bits[i];
                i = i + 1;
            }
            proof {
                assert(out@ =~= bits@);
            }
            out
        }
    }

    /// Stores `val` at the aligned address, replacing any entry already
    /// there; every other address keeps its word.
    pub fn write(&mut self, loc: [bool; 48], val: [bool; 64])
        requires
            old(self).inv(),
        ensures
            final(self).inv(),
            final(self).data_bus == old(self).data_bus,
            final(self).address_bus == old(self).address_bus,
            final(self).control_bus == old(self).control_bus,
            mem_has(final(self).ram_map@, align48(u_val(loc@))),
            mem_get(final(self).ram_map@, align48(u_val(loc@))) == val@,
            forall|u: nat|
                u != align48(u_val(loc@)) ==> #[trigger] mem_get(final(self).ram_map@, u)
                    == mem_get(old(self).ram_map@, u),
            forall|u: nat|
                u != align48(u_val(loc@)) ==> #[trigger] mem_has(final(self).ram_map@, u)
                    == mem_has(old(self).ram_map@, u),
    {
        let key = Self::get_valid_start(loc);
        let ghost ku = u_val(key@);
        let mut dram_write: [DRAM; 64] = [DRAM { charge: false, refresh_timer: 0 }; 64];
        let mut i: usize = 0;
        while i < 64
            invariant
                i <= 64,
                forall|j: int| 0 <= j < i ==> dram_write@[j].charge == val@[j],
                forall|j: int| i <= j < 64 ==> !dram_write@[j].charge,
            decreases 64 - i,
        {
            if val[i] {
                let mut cell = dram_write[i];
                cell.charge();
                dram_write[i] = cell;
            }
            i = i + 1;
        }
        let entry = MemEntry { key, cells: dram_write };
        proof {
            assert(entry_bits(entry) =~= val@);
        }
        // Drop any entry already carrying this address, then append.
        let ghost pre = self.ram_map@;
        let n = self.ram_map.len();
        let mut j: usize = 0;
        let mut hit: usize = 0;
        let mut have: bool = false;
        while j < n
            invariant
                j <= n,
                n == self.ram_map@.len(),
                self.ram_map@ == pre,
                !have ==> forall|a: int| 0 <= a < j ==> u_val(self.ram_map@[a].key@) != ku,
                have ==> hit < j <= n && u_val(self.ram_map@[hit as int].key@) == ku,
                ku == u_val(key@),
            decreases n - j,
        {
            let same = addr_eq(&self.ram_map[j].key, &key);
            proof {
                if !same && u_val(self.ram_map@[j as int].key@) == ku {
                    lemma_u_val_injective(self.ram_map@[j as int].key@, key@);
                }
            }
            if !have && same {
                have = true;
                hit = j;
            }
            j = j + 1;
        }
        if have {
            self.ram_map.remove(hit);
        }
        let ghost mid = self.ram_map@;
        proof {
            if have {
                lemma_mem_remove(pre, hit as int, ku);
            } else {
                lemma_mem_has_index(pre, ku);
            }
            assert(!mem_has(mid, ku));
            assert(mem_uniq(mid)) by {
                if have {
                    lemma_mem_remove(pre, hit as int, ku);
                }
            }
            lemma_mem_has_index(mid, ku);
        }
        self.ram_map.push(entry);
        proof {
            assert forall|u: nat|
                u != align48(u_val(loc@)) implies #[trigger] mem_get(self.ram_map@, u) == mem_get(
                pre,
                u,
            ) by {
                lemma_mem_push(mid, entry, u);
                if have {
                    lemma_mem_remove(pre, hit as int, u);
                }
                if !mem_has(mid, u) {
                    lemma_mem_absent(mid, u);
                    lemma_mem_absent(pre, u);
                }
            }
            assert forall|u: nat|
                u != align48(u_val(loc@)) implies #[trigger] mem_has(self.ram_map@, u) == mem_has(
                pre,
                u,
            ) by {
                lemma_mem_push(mid, entry, u);
                if have {
                    lemma_mem_remove(pre, hit as int, u);
                }
            }
            lemma_mem_push(mid, entry, ku);
            assert(mem_get(self.ram_map@, ku) == entry_bits(entry));
            assert(mem_uniq(self.ram_map@)) by {
                assert(forall|a: int|
                    0 <= a < mid.len() ==> u_val(#[trigger] mid[a].key@) != ku);
                assert(forall|a: int|
                    0 <= a < self.ram_map@.len() - 1 ==> self.ram_map@[a] == mid[a]);
                assert(self.ram_map@[self.ram_map@.len() - 1] == entry);
            }
        }
    }

    /// Reads the word at the aligned address; an unmapped address reads zero.
    pub fn read(&mut self, loc: [bool; 48]) -> (r: [bool; 64])
        requires
            old(self).inv(),
        ensures
            *final(self) == *old(self),
            r@ == mem_get(old(self).ram_map@, align48(u_val(loc@))),
    {
        let key = Self::get_valid_start(loc);
        let ghost ku = u_val(key@);
        let n = self.ram_map.len();
        proof {
            assert(self.ram_map@.subrange(0, n as int) =~= self.ram_map@);
        }
        let mut idx: usize = 0;
        while idx < n
            invariant
                idx <= n,
                n == self.ram_map@.len(),
                ku == u_val(key@),
                ku == align48(u_val(loc@)),
                *self == *old(self),
                forall|j: int| 0 <= j < idx ==> u_val(self.ram_map@[j].key@) != ku,
                mem_get(self.ram_map@, ku) == mem_get(
                    self.ram_map@.subrange(idx as int, n as int),
                    ku,
                ),
                mem_has(self.ram_map@, ku) == mem_has(
                    self.ram_map@.subrange(idx as int, n as int),
                    ku,
                ),
            decreases n - idx,
        {
            let hit = addr_eq(&self.ram_map[idx].key, &key);
            proof {
                let tail = self.ram_map@.subrange(idx as int, n as int);
                assert(tail.subrange(1, tail.len() as int) =~= self.ram_map@.subrange(
                    idx + 1,
                    n as int,
                ));
                assert(tail[0] == self.ram_map@[idx as int]);
                if !hit && u_val(self.ram_map@[idx as int].key@) == ku {
                    lemma_u_val_injective(self.ram_map@[idx as int].key@, key@);
                }
            }
            if hit {
                let mut return_bits: [bool; 64] = [false; 64];
                let mut i: usize = 0;
                while i < 64
                    invariant
                        i <= 64,
                        idx < self.ram_map@.len(),
                        forall|j: int|
                            0 <= j < i ==> return_bits@[j]
                                == self.ram_map@[idx as int].cells@[j].charge,
                    decreases 64 - i,
                {
                    if self.ram_map[idx].cells[i].charge {
                        return_bits[i] = true;
                    } else {
                        return_bits[i] = false;
                    }
                    i = i + 1;
                }
                proof {
                    assert(return_bits@ =~= entry_bits(self.ram_map@[idx as int]));
                    assert(u_val(self.ram_map@[idx as int].key@) == ku);
                    let tail = self.ram_map@.subrange(idx as int, n as int);
                    assert(tail[0] == self.ram_map@[idx as int]);
                    assert(mem_get(tail, ku) == entry_bits(self.ram_map@[idx as int]));
                    assert(ku == align48(u_val(loc@)));
                    assert(mem_get(self.ram_map@, ku) == mem_get(tail, ku));
                    assert(return_bits@ == mem_get(self.ram_map@, align48(u_val(loc@))));
                }
                return return_bits;
            }
            idx = idx + 1;
        }
        let zero: [bool; 64] = [false; 64];
        proof {
            assert(self.ram_map@.subrange(n as int, n as int) =~= Seq::<MemEntry>::empty());
            assert(zero@ =~= zero_bits(64));
        }
        zero
    }

    /// Empties the store.
    pub fn clear(&mut self)
        ensures
            final(self).inv(),
            final(self).ram_map@ == Seq::<MemEntry>::empty(),
            final(self).data_bus == old(self).data_bus,
            final(self).address_bus == old(self).address_bus,
            final(self).control_bus == old(self).control_bus,
    {
        self.ram_map.clear();
    }

    /// Controls interaction with buses: under the lock, serves one posted
    /// request; a store writes the data bus to memory, a load answers on the
    /// data bus and raises `ready_cpu`.
    pub fn tick(&mut self)
        requires
            old(self).inv(),
            !old(self).control_bus.lock,
        ensures
            final(self).inv(),
            mem_tick_post(*old(self), *final(self)),
    {
        self.control_bus.lock = true;
        if self.control_bus.ready_memory {
            self.control_bus.ready_memory = false;
            if self.control_bus.str {
                let a = self.address_bus.bits;
                let d = self.data_bus.bits;
                self.write(a, d);
                self.control_bus.str = false;
            } else {
                let a = self.address_bus.bits;
                let d = self.read(a);
                self.data_bus.bits = d;
                self.control_bus.ready_cpu = true;
            }
        }
        self.control_bus.lock = false;
    }
}

/// Whether two 48-bit addresses hold the same bits.
pub fn addr_eq(a: &[bool; 48], b: &[bool; 48]) -> (r: bool)
    ensures
        r == (a@ == b@),
{
    let mut i: usize = 0;
    while i < 48
        invariant
            i <= 48,
            forall|j: int| 0 <= j < i ==> a@[j] == b@[j],
        decreases 48 - i,
    {
        if a[i] != b[i] {
            proof {
                assert(a@ != b@);
            }
            return false;
        }
        i = i + 1;
    }
    proof {
        assert(a@ =~= b@);
    }
    true
}

} // verus!
