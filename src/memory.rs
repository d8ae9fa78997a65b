//! Memory figures: reading the kernel's memory table and turning it into
//! metrics in bytes.
use vstd::prelude::*;
use crate::entity_map::EntityMap;
use crate::line_protocol::Metric;
use crate::text::{
    chars_of,
    copy_range,
    counter_of,
    parse_counter,
    push_signed_decimal,
    signed_decimal,
    split_words,
    string_from_chars,
    words_of,
};

verus! {

/// A key with its trailing colons taken off.
pub open spec fn trim_colons(s: Seq<char>) -> Seq<char>
    decreases s.len(),
{
    if s.len() > 0 && s.last() == ':' {
        trim_colons(s.drop_last())
    } else {
        s
    }
}

/// A line of the memory table that carries a figure: a key and a value.
pub open spec fn is_meminfo_record(line: Seq<char>) -> bool {
    words_of(line).len() >= 2
}

/// The figures of a memory table: each record binds its key, without the
/// colon, to its value in KiB (zero where it is no number); a later record
/// overrides an earlier one with the same key.
pub open spec fn meminfo_of(lines: Seq<String>) -> Map<Seq<char>, u64>
    decreases lines.len(),
{
    if lines.len() == 0 {
        Map::empty()
    } else {
        let rest = meminfo_of(lines.drop_last());
        let w = words_of(lines.last()@);
        if is_meminfo_record(lines.last()@) {
            rest.insert(trim_colons(w[0]), counter_of(w[1]))
        } else {
            rest
        }
    }
}

/// The figure under `key` in bytes, zero where the table lacks it.
pub open spec fn bytes_of(m: Map<Seq<char>, u64>, key: Seq<char>) -> int {
    if m.contains_key(key) {
        m[key] * 1024
    } else {
        0
    }
}

/// The memory metrics, in the order they are reported, with their values in
/// bytes.
pub open spec fn memory_readings(m: Map<Seq<char>, u64>) -> Seq<(Seq<char>, int)> {
    seq![
        ("memory_total"@, bytes_of(m, "MemTotal"@)),
        ("memory_used"@, bytes_of(m, "MemTotal"@) - bytes_of(m, "MemFree"@)),
        ("memory_free"@, bytes_of(m, "MemFree"@)),
        ("memory_available"@, bytes_of(m, "MemAvailable"@)),
        ("memory_buffered"@, bytes_of(m, "Buffers"@)),
        ("memory_cached"@, bytes_of(m, "Cached"@)),
        ("swap_total"@, bytes_of(m, "SwapTotal"@)),
        ("swap_used"@, bytes_of(m, "SwapTotal"@) - bytes_of(m, "SwapFree"@)),
        ("swap_free"@, bytes_of(m, "SwapFree"@)),
        ("swap_cached"@, bytes_of(m, "SwapCached"@)),
        ("memory_active"@, bytes_of(m, "Active"@)),
        ("memory_inactive"@, bytes_of(m, "Inactive"@)),
        ("memory_dirty"@, bytes_of(m, "Dirty"@)),
        ("memory_shmem"@, bytes_of(m, "Shmem"@)),
        ("memory_slab"@, bytes_of(m, "Slab"@)),
        ("memory_pagetables"@, bytes_of(m, "PageTables"@)),
        ("zswap_size"@, bytes_of(m, "Zswap"@)),
        ("zswap_stored"@, bytes_of(m, "Zswapped"@)),
    ]
}

/// Takes the trailing colons off a key.
fn trim_key(word: &str) -> (r: String)
    ensures
        r@ == trim_colons(word@),
{
    let cs = chars_of(word);
    let mut end: usize = cs.len();
    proof {
        assert(cs@.take(end as int) =~= cs@);
    }
    while end > 0 && cs[end - 1] == ':'
        invariant
            end <= cs@.len(),
            trim_colons(cs@) == trim_colons(cs@.take(end as int)),
        decreases end,
    {
        proof {
            assert(cs@.take(end as int).drop_last() =~= cs@.take(end - 1));
        }
        end = end - 1;
    }
    let r = copy_range(&cs, 0, end);
    proof {
        assert(r@ =~= cs@.take(end as int));
    }
    string_from_chars(&r)
}

/// Adds a metric without tags, with `value` written in decimal.
fn push_reading(metrics: &mut Vec<Metric>, name: &str, value: i128)
    requires
        value > i128::MIN,
    ensures
        final(metrics)@.len() == old(metrics)@.len() + 1,
        forall|j: int|
            0 <= j < old(metrics)@.len() ==> #[trigger] final(metrics)@[j] == old(metrics)@[j],
        final(metrics)@.last().name@ == name@,
        final(metrics)@.last().value@ == signed_decimal(value as int),
        final(metrics)@.last().tags@.len() == 0,
{
    let mut digits: Vec<char> = Vec::new();
    push_signed_decimal(&mut digits, value);
    let m = Metric { name: String::from_str(name), value: string_from_chars(&digits), tags: Vec::new() };
    metrics.push(m);
}

/// The collector of memory figures from the kernel's memory table.
#[derive(Debug, Default)]
pub struct LinuxMemoryCollector {}

impl LinuxMemoryCollector {
    /// The memory collector; it keeps no state.
    pub fn new() -> Self {
        LinuxMemoryCollector {}
    }

    /// Reads the memory table, line by line, into its figures.
    pub fn parse_meminfo(&self, lines: &Vec<String>) -> (r: EntityMap<u64>)
        ensures
            r@ == meminfo_of(lines@),
    {
        let mut meminfo: EntityMap<u64> = EntityMap::new();
        let mut i: usize = 0;
        while i < lines.len()
            invariant
                i <= lines@.len(),
                meminfo@ == meminfo_of(lines@.take(i as int)),
            decreases lines@.len() - i,
        {
            proof {
                assert(lines@.take(i + 1).drop_last() =~= lines@.take(i as int));
            }
            let w = split_words(lines[i].as_str());
            if w.len() >= 2 {
                let key = trim_key(w[0].as_str());
                let value = parse_counter(w[1].as_str());
                meminfo.insert(key, value);
            }
            i = i + 1;
        }
        proof {
            assert(lines@.take(lines@.len() as int) =~= lines@);
        }
        meminfo
    }

    /// The memory metrics of a memory table's figures: sizes in bytes, and the
    /// used memory and swap as total less free.
    pub fn build_metrics(&self, meminfo: &EntityMap<u64>) -> (r: Vec<Metric>)
        ensures
            r@.len() == memory_readings(meminfo@).len(),
            forall|i: int|
                #![trigger r@[i]]
                0 <= i < r@.len() ==> r@[i].name@ == memory_readings(meminfo@)[i].0
                    && r@[i].value@ == signed_decimal(memory_readings(meminfo@)[i].1)
                    && r@[i].tags@.len() == 0,
    {
        let mem_total = kib_in_bytes(meminfo, "MemTotal");
        let mem_free = kib_in_bytes(meminfo, "MemFree");
        let mem_available = kib_in_bytes(meminfo, "MemAvailable");
        let buffers = kib_in_bytes(meminfo, "Buffers");
        let cached = kib_in_bytes(meminfo, "Cached");
        let swap_total = kib_in_bytes(meminfo, "SwapTotal");
        let swap_free = kib_in_bytes(meminfo, "SwapFree");
        let swap_cached = kib_in_bytes(meminfo, "SwapCached");
        let active = kib_in_bytes(meminfo, "Active");
        let inactive = kib_in_bytes(meminfo, "Inactive");
        let dirty = kib_in_bytes(meminfo, "Dirty");
        let shmem = kib_in_bytes(meminfo, "Shmem");
        let slab = kib_in_bytes(meminfo, "Slab");
        let pagetables = kib_in_bytes(meminfo, "PageTables");
        let zswap = kib_in_bytes(meminfo, "Zswap");
        let zswapped = kib_in_bytes(meminfo, "Zswapped");

        let mut metrics: Vec<Metric> = Vec::new();
        push_reading(&mut metrics, "memory_total", mem_total);
        push_reading(&mut metrics, "memory_used", mem_total - mem_free);
        push_reading(&mut metrics, "memory_free", mem_free);
        push_reading(&mut metrics, "memory_available", mem_available);
        push_reading(&mut metrics, "memory_buffered", buffers);
        push_reading(&mut metrics, "memory_cached", cached);
        push_reading(&mut metrics, "swap_total", swap_total);
        push_reading(&mut metrics, "swap_used", swap_total - swap_free);
        push_reading(&mut metrics, "swap_free", swap_free);
        push_reading(&mut metrics, "swap_cached", swap_cached);
        push_reading(&mut metrics, "memory_active", active);
        push_reading(&mut metrics, "memory_inactive", inactive);
        push_reading(&mut metrics, "memory_dirty", dirty);
        push_reading(&mut metrics, "memory_shmem", shmem);
        push_reading(&mut metrics, "memory_slab", slab);
        push_reading(&mut metrics, "memory_pagetables", pagetables);
        push_reading(&mut metrics, "zswap_size", zswap);
        push_reading(&mut metrics, "zswap_stored", zswapped);
        metrics
    }
}

/// The figure under `key` in bytes, zero where the table lacks it.
fn kib_in_bytes(meminfo: &EntityMap<u64>, key: &str) -> (r: i128)
    ensures
        r == bytes_of(meminfo@, key@),
        0 <= r <= u64::MAX * 1024,
{
    match meminfo.get(key) {
        Some(v) => *v as i128 * 1024,
        None => 0,
    }
}

} // verus!
