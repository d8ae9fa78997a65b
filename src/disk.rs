//! Block-device figures: reading the kernel's disk statistics table and
//! turning it into metrics.
use vstd::prelude::*;
use crate::cpu::saturating_diff;
use crate::entity_map::EntityMap;
use crate::line_protocol::Metric;
use crate::text::{
    counter_of,
    decimal,
    parse_counter,
    pattern_matches,
    push_decimal,
    regex_matches,
    split_words,
    string_from_chars,
    words_of,
};

verus! {

/// The devices whose figures are reported: whole NVMe namespaces and SCSI
/// disks, not their partitions.
pub const DEVICE_PATTERN: &'static str = "^(nvme[0-9]+n[0-9]+|sd[a-z]+)$";

/// Whether a device is one whose figures are reported.
pub fn is_reported_device(name: &str) -> (r: bool)
    ensures
        r == regex_matches(DEVICE_PATTERN@, name@),
{
    pattern_matches(DEVICE_PATTERN, name)
}

/// `sectors` of 512 bytes in bytes, held at `u64::MAX`.
pub open spec fn sector_bytes(sectors: u64) -> u64 {
    if sectors * 512 > u64::MAX {
        u64::MAX
    } else {
        (sectors * 512) as u64
    }
}

/// The figures of one block device.
#[derive(Debug, Clone, PartialEq, Eq)]
pub struct DiskIo {
    pub read_bytes: u64,
    pub written_bytes: u64,
    pub reads: u64,
    pub writes: u64,
    pub read_time: u64,
    pub write_time: u64,
    pub io_in_progress: u64,
    pub disk_id: String,
}

/// A line of the disk statistics table that describes a reported device: at
/// least fourteen words, the third naming the device.
pub open spec fn is_disk_record(line: Seq<char>) -> bool {
    words_of(line).len() >= 14 && regex_matches(DEVICE_PATTERN@, words_of(line)[2])
}

/// The stable name of a device: its entry in `ids`, or its own name.
pub open spec fn disk_id_of(ids: Map<Seq<char>, String>, device: Seq<char>) -> Seq<char> {
    if ids.contains_key(device) {
        ids[device]@
    } else {
        device
    }
}

/// The figures that a disk record, split into words, gives.
pub open spec fn is_disk_io_of(d: DiskIo, w: Seq<Seq<char>>, ids: Map<Seq<char>, String>) -> bool {
    &&& d.reads == counter_of(w[3])
    &&& d.read_bytes == sector_bytes(counter_of(w[5]))
    &&& d.read_time == counter_of(w[6])
    &&& d.writes == counter_of(w[7])
    &&& d.written_bytes == sector_bytes(counter_of(w[9]))
    &&& d.write_time == counter_of(w[10])
    &&& d.io_in_progress == counter_of(w[11])
    &&& d.disk_id@ == disk_id_of(ids, w[2])
}

/// The last record in `lines` for `device`, if any.
pub open spec fn last_disk_record(lines: Seq<String>, device: Seq<char>) -> Option<Seq<char>>
    decreases lines.len(),
{
    if lines.len() == 0 {
        None
    } else if is_disk_record(lines.last()@) && words_of(lines.last()@)[2] == device {
        Some(lines.last()@)
    } else {
        last_disk_record(lines.drop_last(), device)
    }
}

/// The figures of a disk statistics table: one entry per reported device,
/// from the last record that names it.
pub open spec fn is_diskstats_of(
    r: Map<Seq<char>, DiskIo>,
    lines: Seq<String>,
    ids: Map<Seq<char>, String>,
) -> bool {
    &&& forall|k: Seq<char>| #[trigger] r.contains_key(k) <==> last_disk_record(lines, k) is Some
    &&& forall|k: Seq<char>|
        #[trigger] r.contains_key(k) ==> is_disk_io_of(
            r[k],
            words_of(last_disk_record(lines, k)->0),
            ids,
        )
}

fn sectors_in_bytes(sectors: u64) -> (r: u64)
    ensures
        r == sector_bytes(sectors),
{
    if sectors > u64::MAX / 512 {
        u64::MAX
    } else {
        sectors * 512
    }
}

/// Reads the block-device figures of the kernel's disk statistics table.
#[derive(Debug)]
pub struct DiskIoCollector {
    device_to_id: EntityMap<String>,
}

impl DiskIoCollector {
    /// The stable device names it reports under, by kernel device name.
    pub closed spec fn device_ids(&self) -> Map<Seq<char>, String> {
        self.device_to_id@
    }

    /// A collector that names each device by its entry in `device_to_id`.
    pub fn new_with_device_to_id_mapping(device_to_id: EntityMap<String>) -> (r: Self)
        ensures
            r.device_ids() == device_to_id@,
    {
        DiskIoCollector { device_to_id }
    }

    /// Reads one disk record split into words: its counters, sector counts
    /// in bytes, and the device's stable name.
    pub fn disk_io_of_words(&self, w: &Vec<String>) -> (r: DiskIo)
        requires
            w@.len() >= 14,
        ensures
            is_disk_io_of(r, w@.map_values(|s: String| s@), self.device_ids()),
    {
        let disk_id = match self.device_to_id.get(w[2].as_str()) {
            Some(id) => id.clone(),
            None => w[2].clone(),
        };
        DiskIo {
            read_bytes: sectors_in_bytes(parse_counter(w[5].as_str())),
            written_bytes: sectors_in_bytes(parse_counter(w[9].as_str())),
            reads: parse_counter(w[3].as_str()),
            writes: parse_counter(w[7].as_str()),
            read_time: parse_counter(w[6].as_str()),
            write_time: parse_counter(w[10].as_str()),
            io_in_progress: parse_counter(w[11].as_str()),
            disk_id,
        }
    }

    /// Reads the disk statistics table, line by line: each reported device
    /// with its counters, sector counts turned into bytes.
    pub fn collect_from_reader(&self, lines: &Vec<String>) -> (r: EntityMap<DiskIo>)
        ensures
            is_diskstats_of(r@, lines@, self.device_ids()),
    {
        let mut io: EntityMap<DiskIo> = EntityMap::new();
        let mut i: usize = 0;
        while i < lines.len()
            invariant
                i <= lines@.len(),
                is_diskstats_of(io@, lines@.take(i as int), self.device_ids()),
            decreases lines@.len() - i,
        {
            let ghost before = io@;
            let ghost seen = lines@.take(i as int);
            let ghost now = lines@.take(i + 1);
            proof {
                assert(now.drop_last() =~= seen);
                assert(now.last() == lines@[i as int]);
            }
            let w = split_words(lines[i].as_str());
            if w.len() >= 14 && is_reported_device(w[2].as_str()) {
                let d = self.disk_io_of_words(&w);
                let name = w[2].clone();
                proof {
                    assert(w@.map_values(|s: String| s@) =~= words_of(lines@[i as int]@));
                }
                io.insert(name, d);
                proof {
                    assert forall|k: Seq<char>|
                        #[trigger] io@.contains_key(k) implies is_disk_io_of(
                            io@[k],
                            words_of(last_disk_record(now, k)->0),
                            self.device_ids(),
                        ) by {
                        if k != w@[2]@ {
                            assert(last_disk_record(now, k) == last_disk_record(seen, k));
                        }
                    }
                }
            } else {
                proof {
                    assert forall|k: Seq<char>|
                        last_disk_record(now, k) == last_disk_record(seen, k) by {
                        if w@.len() >= 14 {
                            assert(words_of(lines@[i as int]@)[2] == w@[2]@);
                        }
                    }
                }
            }
            i = i + 1;
        }
        proof {
            assert(lines@.take(lines@.len() as int) =~= lines@);
        }
        io
    }
}

/// The metrics of one device: name and value, in the order they are reported.
pub open spec fn disk_readings(d: DiskIo) -> Seq<(Seq<char>, u64)> {
    seq![
        ("disk_read_bytes"@, d.read_bytes),
        ("disk_written_bytes"@, d.written_bytes),
        ("disk_reads"@, d.reads),
        ("disk_writes"@, d.writes),
        ("disk_read_time"@, d.read_time),
        ("disk_write_time"@, d.write_time),
        ("disk_io_in_progress"@, d.io_in_progress),
    ]
}

/// `m` reports reading `q` of the device `device` with figures `d`: its name
/// and decimal value, tagged `device` and `disk_id`.
pub open spec fn is_disk_metric(m: Metric, device: Seq<char>, d: DiskIo, q: int) -> bool {
    &&& m.name@ == disk_readings(d)[q].0
    &&& m.value@ == decimal(disk_readings(d)[q].1 as nat)
    &&& m.tags@.len() == 2
    &&& m.tags@[0].0@ == "device"@
    &&& m.tags@[0].1@ == device
    &&& m.tags@[1].0@ == "disk_id"@
    &&& m.tags@[1].1@ == d.disk_id@
}

/// Appends a metric of a device's figures, tagged with the device and its
/// stable name.
fn push_disk_reading(
    metrics: &mut Vec<Metric>,
    name: &str,
    value: u64,
    device: &String,
    disk_id: &String,
)
    ensures
        final(metrics)@.len() == old(metrics)@.len() + 1,
        forall|j: int|
            0 <= j < old(metrics)@.len() ==> #[trigger] final(metrics)@[j] == old(metrics)@[j],
        final(metrics)@.last().name@ == name@,
        final(metrics)@.last().value@ == decimal(value as nat),
        final(metrics)@.last().tags@.len() == 2,
        final(metrics)@.last().tags@[0].0@ == "device"@,
        final(metrics)@.last().tags@[0].1@ == device@,
        final(metrics)@.last().tags@[1].0@ == "disk_id"@,
        final(metrics)@.last().tags@[1].1@ == disk_id@,
{
    let mut digits: Vec<char> = Vec::new();
    push_decimal(&mut digits, value as u128);
    let mut tags: Vec<(String, String)> = Vec::new();
    tags.push((String::from_str("device"), device.clone()));
    tags.push((String::from_str("disk_id"), disk_id.clone()));
    let m = Metric { name: String::from_str(name), value: string_from_chars(&digits), tags };
    metrics.push(m);
}

/// Appends the seven metrics of one device.
fn push_disk_metrics(metrics: &mut Vec<Metric>, device: &String, d: &DiskIo)
    ensures
        final(metrics)@.len() == old(metrics)@.len() + 7,
        forall|j: int|
            0 <= j < old(metrics)@.len() ==> #[trigger] final(metrics)@[j] == old(metrics)@[j],
        forall|q: int|
            0 <= q < 7 ==> is_disk_metric(
                #[trigger] final(metrics)@[old(metrics)@.len() + q],
                device@,
                *d,
                q,
            ),
{
    let ghost n = metrics@.len();
    push_disk_reading(metrics, "disk_read_bytes", d.read_bytes, device, &d.disk_id);
    push_disk_reading(metrics, "disk_written_bytes", d.written_bytes, device, &d.disk_id);
    push_disk_reading(metrics, "disk_reads", d.reads, device, &d.disk_id);
    push_disk_reading(metrics, "disk_writes", d.writes, device, &d.disk_id);
    push_disk_reading(metrics, "disk_read_time", d.read_time, device, &d.disk_id);
    push_disk_reading(metrics, "disk_write_time", d.write_time, device, &d.disk_id);
    push_disk_reading(metrics, "disk_io_in_progress", d.io_in_progress, device, &d.disk_id);
    proof {
        assert forall|q: int| 0 <= q < 7 implies is_disk_metric(
            #[trigger] metrics@[n + q],
            device@,
            *d,
            q,
        ) by {
            if q == 0 {
            } else if q == 1 {
            } else if q == 2 {
            } else if q == 3 {
            } else if q == 4 {
            } else if q == 5 {
            } else {
            }
        }
    }
}

/// The metrics of the devices in `io`, in its order: for each device its
/// seven readings.
pub fn disk_metrics(io: &EntityMap<DiskIo>) -> (r: Vec<Metric>)
    ensures
        r@.len() == 7 * io.entry_seq().len(),
        forall|j: int, q: int|
            0 <= j < io.entry_seq().len() && 0 <= q < 7 ==> is_disk_metric(
                #[trigger] r@[7 * j + q],
                io.entry_seq()[j].0@,
                io.entry_seq()[j].1,
                q,
            ),
{
    let entries = io.entries();
    let mut metrics: Vec<Metric> = Vec::new();
    let mut i: usize = 0;
    while i < entries.len()
        invariant
            i <= entries@.len(),
            entries@ == io.entry_seq(),
            metrics@.len() == 7 * i,
            forall|j: int, q: int|
                0 <= j < i && 0 <= q < 7 ==> is_disk_metric(
                    #[trigger] metrics@[7 * j + q],
                    entries@[j].0@,
                    entries@[j].1,
                    q,
                ),
        decreases entries@.len() - i,
    {
        let ghost before = metrics@;
        push_disk_metrics(&mut metrics, &entries[i].0, &entries[i].1);
        proof {
            assert forall|j: int, q: int|
                0 <= j < i + 1 && 0 <= q < 7 implies is_disk_metric(
                #[trigger] metrics@[7 * j + q],
                entries@[j].0@,
                entries@[j].1,
                q,
            ) by {
                if j < i {
                    assert(7 * j + q < 7 * i) by (nonlinear_arith)
                        requires
                            j < i,
                            q < 7,
                    ;
                    assert(metrics@[7 * j + q] == before[7 * j + q]);
                } else {
                    assert(7 * j + q == before.len() + q);
                }
            }
        }
        i = i + 1;
    }
    metrics
}

impl DiskIo {
    /// The figures of the interval since `earlier`: each cumulative counter's
    /// increase, clamped at zero where it went down (a reset); the count of
    /// requests in flight, a gauge, and the stable name are this reading's.
    pub open spec fn delta_from(self, earlier: DiskIo) -> DiskIo {
        DiskIo {
            read_bytes: saturating_diff(self.read_bytes, earlier.read_bytes),
            written_bytes: saturating_diff(self.written_bytes, earlier.written_bytes),
            reads: saturating_diff(self.reads, earlier.reads),
            writes: saturating_diff(self.writes, earlier.writes),
            read_time: saturating_diff(self.read_time, earlier.read_time),
            write_time: saturating_diff(self.write_time, earlier.write_time),
            io_in_progress: self.io_in_progress,
            disk_id: self.disk_id,
        }
    }

    /// The figures of the interval since `earlier`.
    pub fn since(&self, earlier: &DiskIo) -> (r: DiskIo)
        ensures
            r == self.delta_from(*earlier),
    {
        DiskIo {
            read_bytes: self.read_bytes.saturating_sub(earlier.read_bytes),
            written_bytes: self.written_bytes.saturating_sub(earlier.written_bytes),
            reads: self.reads.saturating_sub(earlier.reads),
            writes: self.writes.saturating_sub(earlier.writes),
            read_time: self.read_time.saturating_sub(earlier.read_time),
            write_time: self.write_time.saturating_sub(earlier.write_time),
            io_in_progress: self.io_in_progress,
            disk_id: self.disk_id.clone(),
        }
    }
}

/// The deltas of a disk scrape: for each device seen both in the baseline
/// `prev` and in the scrape `cur`, its figures over the interval. Devices new
/// in `cur` get none; devices missing from `cur` are dropped.
pub open spec fn disk_deltas_between(
    prev: Map<Seq<char>, DiskIo>,
    cur: Map<Seq<char>, DiskIo>,
) -> Map<Seq<char>, DiskIo> {
    Map::new(
        |k: Seq<char>| cur.contains_key(k) && prev.contains_key(k),
        |k: Seq<char>| cur[k].delta_from(prev[k]),
    )
}

/// The collector of block-device metrics: it reads the disk statistics
/// table and keeps the last scrape as the baseline of the next interval.
#[derive(Debug)]
pub struct DiskCollector {
    pub collector: DiskIoCollector,
    last_io: EntityMap<DiskIo>,
}

impl DiskCollector {
    /// The figures of the last scrape, against which the next is measured.
    pub closed spec fn baseline(&self) -> Map<Seq<char>, DiskIo> {
        self.last_io@
    }

    /// The stable device names it reports under, by kernel device name.
    pub closed spec fn device_ids(&self) -> Map<Seq<char>, String> {
        self.collector.device_ids()
    }

    /// A collector that names each device by its entry in `device_to_id`,
    /// with an empty baseline.
    pub fn new(device_to_id: EntityMap<String>) -> (r: Self)
        ensures
            r.device_ids() == device_to_id@,
            r.baseline() == Map::<Seq<char>, DiskIo>::empty(),
    {
        DiskCollector {
            collector: DiskIoCollector::new_with_device_to_id_mapping(device_to_id),
            last_io: EntityMap::new(),
        }
    }

    /// Measures the scrape `current` against the baseline and makes it the
    /// new baseline, in place of the old one.
    pub fn update(&mut self, current: EntityMap<DiskIo>) -> (r: EntityMap<DiskIo>)
        ensures
            r@ == disk_deltas_between(old(self).baseline(), current@),
            final(self).baseline() == current@,
            final(self).device_ids() == old(self).device_ids(),
    {
        let mut deltas: EntityMap<DiskIo> = EntityMap::new();
        let entries = current.entries();
        let ghost prev = self.last_io@;
        let mut i: usize = 0;
        while i < entries.len()
            invariant
                i <= entries@.len(),
                prev == self.last_io@,
                entries@ == current.entry_seq(),
                crate::entity_map::names_distinct(entries@),
                forall|j: int|
                    #![trigger entries@[j]]
                    0 <= j < entries@.len() ==> current@.contains_key(entries@[j].0@)
                        && current@[entries@[j].0@] == entries@[j].1,
                forall|k: Seq<char>|
                    #![trigger deltas@.contains_key(k)]
                    deltas@.contains_key(k) <==> (prev.contains_key(k) && exists|j: int|
                        0 <= j < i && entries@[j].0@ == k),
                forall|k: Seq<char>|
                    #![trigger deltas@.contains_key(k)]
                    deltas@.contains_key(k) ==> current@.contains_key(k) && deltas@[k]
                        == current@[k].delta_from(prev[k]),
            decreases entries@.len() - i,
        {
            let name = &entries[i].0;
            match self.last_io.get(name.as_str()) {
                Some(last) => {
                    let d = entries[i].1.since(last);
                    deltas.insert(name.clone(), d);
                },
                None => {},
            }
            proof {
                assert forall|k: Seq<char>|
                    #![trigger deltas@.contains_key(k)]
                    deltas@.contains_key(k) <== (prev.contains_key(k) && exists|j: int|
                        0 <= j < i + 1 && entries@[j].0@ == k) by {
                    if prev.contains_key(k) {
                        let j = choose|j: int| 0 <= j < i + 1 && entries@[j].0@ == k;
                        if j < i {
                        }
                    }
                }
            }
            i = i + 1;
        }
        proof {
            assert(deltas@ =~= disk_deltas_between(prev, current@)) by {
                assert forall|k: Seq<char>|
                    #![trigger current@.contains_key(k)]
                    current@.contains_key(k) && prev.contains_key(k) implies deltas@.contains_key(
                        k,
                    ) by {
                    let j = choose|j: int| 0 <= j < entries@.len() && entries@[j].0@ == k;
                }
            }
        }
        self.last_io = current;
        deltas
    }
}

} // verus!
