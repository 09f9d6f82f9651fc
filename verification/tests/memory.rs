// The storage hierarchy on concrete values: registers, the register file,
// main memory with its buses, and the two-level LRU cache.

use vonsim::buses::AddressBus;
use vonsim::buses::ControlBus;
use vonsim::buses::DataBus;
use vonsim::caches::DataAccessManager;
use vonsim::caches::L1Cache;
use vonsim::caches::L2Cache;
use vonsim::caches::CacheQueue;
use vonsim::converter::Converter;
use vonsim::main_memory::MainMemory;
use vonsim::memory_chips::DRAM;
use vonsim::memory_chips::SRAM;
use vonsim::reg64::Reg64;
use vonsim::reg_bank::RegBank;

fn addr(v: u64) -> [bool; 48] {
    Converter::dec_to_bin_pos_only(v, 48).try_into().unwrap()
}

fn word(v: i64) -> [bool; 64] {
    Converter::dec_to_bin_2s_comp(v)
}

fn as_i64(w: [bool; 64]) -> i64 {
    Converter::bin_to_dec_2s_comp(w.to_vec())
}

fn idx(v: u64) -> [bool; 4] {
    Converter::dec_to_bin_pos_only(v, 4).try_into().unwrap()
}

fn fresh_memory() -> MainMemory {
    MainMemory {
        ram_map: Vec::new(),
        data_bus: DataBus::default(),
        address_bus: AddressBus::default(),
        control_bus: ControlBus::default(),
    }
}

fn fresh_dam() -> DataAccessManager {
    DataAccessManager {
        l1_cache: L1Cache::default(),
        l2_cache: L2Cache::default(),
        main_memory: fresh_memory(),
    }
}

#[test]
fn chips_hold_their_charge() {
    let mut d = DRAM::default();
    assert!(!d.charge);
    d.charge();
    assert!(d.charge);
    assert!(d.read());
    assert!(d.charge);
    d.dis_charge();
    assert!(!d.read());
    let mut s = SRAM::default();
    s.charge();
    assert!(s.charge);
    s.discharge();
    assert!(!s.charge);
}

#[test]
fn register_stores_and_clears() {
    let mut r = Reg64::default();
    r.set_data(word(123456));
    assert_eq!(as_i64(r.get_data()), 123456);
    r.clear_data();
    assert_eq!(as_i64(r.get_data()), 0);
}

#[test]
fn register_file_write_then_read() {
    // Every honoured selector reads back the word just written.
    for i in 1..15u64 {
        let mut bank = RegBank::default();
        bank.set_data(idx(i), word(1000 + i as i64));
        assert_eq!(as_i64(bank.get_data(idx(i))), 1000 + i as i64);
    }
}

#[test]
fn register_zero_and_fifteen_are_not_honoured() {
    let mut bank = RegBank::default();
    bank.set_data(idx(0), word(7));
    assert_eq!(as_i64(bank.get_data(idx(0))), 0);
    bank.set_data(idx(15), word(7));
    assert_eq!(as_i64(bank.get_data(idx(15))), 0);
}

#[test]
fn main_memory_round_trip_and_default_zero() {
    let mut m = fresh_memory();
    m.write(addr(256), word(42));
    assert_eq!(as_i64(m.read(addr(256))), 42);
    m.write(addr(256), word(43));
    assert_eq!(as_i64(m.read(addr(256))), 43);
    assert_eq!(as_i64(m.read(addr(512))), 0);
    m.clear();
    assert_eq!(as_i64(m.read(addr(256))), 0);
}

#[test]
fn unaligned_addresses_round_up_to_the_quotient_rule() {
    // 100 is not a multiple of 64: the valid start is the next multiple, 128.
    let a = MainMemory::get_valid_start(addr(100));
    assert_eq!(Converter::bin_to_dec_pos_only(Converter::bit48_to64(a).to_vec()), 128);
    let a = MainMemory::get_valid_start(addr(128));
    assert_eq!(Converter::bin_to_dec_pos_only(Converter::bit48_to64(a).to_vec()), 128);
}

#[test]
fn memory_tick_serves_a_load() {
    let mut m = fresh_memory();
    m.write(addr(64), word(9));
    m.address_bus.bits = addr(64);
    m.control_bus.str = false;
    m.control_bus.ready_memory = true;
    m.tick();
    assert!(m.control_bus.ready_cpu);
    assert!(!m.control_bus.ready_memory);
    assert_eq!(as_i64(m.data_bus.bits), 9);
}

#[test]
fn memory_tick_serves_a_store() {
    let mut m = fresh_memory();
    m.address_bus.bits = addr(64);
    m.data_bus.bits = word(77);
    m.control_bus.str = true;
    m.control_bus.ready_memory = true;
    m.tick();
    assert!(!m.control_bus.str);
    assert!(!m.control_bus.ready_memory);
    assert_eq!(as_i64(m.read(addr(64))), 77);
}

#[test]
fn cache_queue_lru_order() {
    let mut q = CacheQueue::with_capacity(3);
    q.insert(addr(64), word(1));
    q.insert(addr(128), word(2));
    q.insert(addr(192), word(3));
    // Touching the head promotes it to most recently used: afterwards the
    // old second entry is the head, so it is the one a full insert evicts.
    let i = q.get_index(addr(64));
    assert_eq!(i, 0);
    let (v, hit) = q.get_value(i);
    assert!(hit);
    assert_eq!(as_i64(v), 1);
    let (evicted, valid) = q.insert(addr(256), word(4));
    assert!(valid);
    assert_eq!(Converter::bin_to_dec_pos_only(Converter::bit48_to64(evicted.key).to_vec()), 128);
    assert_eq!(as_i64(evicted.value), 2);
}

#[test]
fn cache_queue_overwrites_in_place() {
    let mut q = CacheQueue::with_capacity(3);
    q.insert(addr(64), word(1));
    q.insert(addr(128), word(2));
    q.insert(addr(64), word(10));
    let i = q.get_index(addr(64));
    let (v, hit) = q.get_value(i);
    assert!(hit);
    assert_eq!(as_i64(v), 10);
    // The overwritten key moved to the tail, so the other key is the head.
    assert_eq!(q.get_index(addr(128)), 0);
}

#[test]
fn cache_queue_miss_reads_zero() {
    let mut q = CacheQueue::with_capacity(3);
    let (v, hit) = q.get_value(-1);
    assert!(!hit);
    assert_eq!(as_i64(v), 0);
    assert_eq!(q.get_index(addr(640)), -1);
}

#[test]
fn dam_write_then_read_hits() {
    // A write that lands in the cache is immediately readable.
    let mut dam = fresh_dam();
    dam.write(addr(320), word(55));
    let (v, hit) = dam.read(addr(320));
    assert!(hit);
    assert_eq!(as_i64(v), 55);
}

#[test]
fn dam_read_miss_posts_a_load_request() {
    let mut dam = fresh_dam();
    dam.main_memory.write(addr(320), word(3));
    let (v, hit) = dam.read(addr(320));
    assert!(!hit);
    assert_eq!(as_i64(v), 0);
    assert!(dam.main_memory.control_bus.ready_memory);
    assert!(!dam.main_memory.control_bus.str);
    // The memory answers; the stalled read captures and caches the word.
    dam.main_memory.tick();
    let (ready, data) = dam.stall_read();
    assert!(ready);
    assert_eq!(as_i64(data), 3);
    let (v, hit) = dam.read(addr(320));
    assert!(hit);
    assert_eq!(as_i64(v), 3);
}

#[test]
fn l1_eviction_cascades_to_l2() {
    let mut dam = fresh_dam();
    // Fill L1 with twenty distinct lines, then force evictions.
    for k in 0..20u64 {
        dam.insert_to_cache(addr(64 * (k + 1)), word(k as i64));
    }
    assert_eq!(dam.l1_cache.get_index(addr(64)), 0);
    // The twenty-first insert evicts the LRU head of L1 into L2.
    dam.insert_to_cache(addr(64 * 21), word(20));
    assert_eq!(dam.l1_cache.get_index(addr(64)), -1);
    assert!(dam.l2_cache.get_index(addr(64)) != -1);
    let (v, hit) = dam.read(addr(64));
    assert!(hit);
    assert_eq!(as_i64(v), 0);
}

#[test]
fn capacities_hold_under_churn() {
    let mut dam = fresh_dam();
    for k in 0..100u64 {
        dam.insert_to_cache(addr(64 * (k + 1)), word(k as i64));
    }
    let mut l1 = 0;
    let mut l2 = 0;
    for k in 0..101u64 {
        if dam.l1_cache.get_index(addr(64 * (k + 1))) != -1 {
            l1 += 1;
        }
        if dam.l2_cache.get_index(addr(64 * (k + 1))) != -1 {
            l2 += 1;
        }
    }
    assert!(l1 <= 20);
    assert!(l2 <= 50);
}
