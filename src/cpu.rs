//! Cumulative CPU tick counters: the per-interval delta engine over them and
//! the normalizer that turns a delta into percentages of the interval.
use vstd::prelude::*;
use crate::entity_map::EntityMap;
use crate::text::{counter_of, parse_counter, split_words, words_of};

verus! {

/// Subtraction clamped at zero.
pub open spec fn saturating_diff(a: u64, b: u64) -> u64 {
    if a >= b {
        (a - b) as u64
    } else {
        0
    }
}

/// The cumulative tick counters of one CPU (or of all CPUs together), in the
/// order the kernel lists them.
#[derive(Debug, Default, Clone, Copy, PartialEq, Eq, Structural)]
pub struct CpuTimes {
    pub user: u64,
    pub nice: u64,
    pub system: u64,
    pub idle: u64,
    pub iowait: u64,
    pub irq: u64,
    pub softirq: u64,
    pub steal: u64,
    pub guest: u64,
    pub guest_nice: u64,
}

impl CpuTimes {
    /// The sum of all ten counters.
    pub open spec fn spec_total(&self) -> int {
        self.user + self.nice + self.system + self.idle + self.iowait + self.irq + self.softirq
            + self.steal + self.guest + self.guest_nice
    }

    /// The increase of each counter since `earlier`, clamped at zero where a
    /// counter went down (a reset).
    pub open spec fn delta_from(self, earlier: CpuTimes) -> CpuTimes {
        CpuTimes {
            user: saturating_diff(self.user, earlier.user),
            nice: saturating_diff(self.nice, earlier.nice),
            system: saturating_diff(self.system, earlier.system),
            idle: saturating_diff(self.idle, earlier.idle),
            iowait: saturating_diff(self.iowait, earlier.iowait),
            irq: saturating_diff(self.irq, earlier.irq),
            softirq: saturating_diff(self.softirq, earlier.softirq),
            steal: saturating_diff(self.steal, earlier.steal),
            guest: saturating_diff(self.guest, earlier.guest),
            guest_nice: saturating_diff(self.guest_nice, earlier.guest_nice),
        }
    }

    /// The sum of all ten counters.
    pub fn total(&self) -> (r: u64)
        requires
            self.spec_total() <= u64::MAX,
        ensures
            r == self.spec_total(),
    {
        self.user + self.nice + self.system + self.idle + self.iowait + self.irq + self.softirq
            + self.steal + self.guest + self.guest_nice
    }
}

impl core::ops::Sub for CpuTimes {
    type Output = CpuTimes;

    /// Field-wise saturating subtraction: the increase since `other`.
    fn sub(self, other: CpuTimes) -> (r: CpuTimes)
        ensures
            r == self.delta_from(other),
    {
        CpuTimes {
            user: self.user.saturating_sub(other.user),
            nice: self.nice.saturating_sub(other.nice),
            system: self.system.saturating_sub(other.system),
            idle: self.idle.saturating_sub(other.idle),
            iowait: self.iowait.saturating_sub(other.iowait),
            irq: self.irq.saturating_sub(other.irq),
            softirq: self.softirq.saturating_sub(other.softirq),
            steal: self.steal.saturating_sub(other.steal),
            guest: self.guest.saturating_sub(other.guest),
            guest_nice: self.guest_nice.saturating_sub(other.guest_nice),
        }
    }
}

impl vstd::std_specs::ops::SubSpecImpl for CpuTimes {
    open spec fn obeys_sub_spec() -> bool {
        true
    }

    open spec fn sub_req(self, rhs: CpuTimes) -> bool {
        true
    }

    open spec fn sub_spec(self, rhs: CpuTimes) -> CpuTimes {
        self.delta_from(rhs)
    }
}

/// An exact percentage: `numerator / denominator` percent, with a positive
/// denominator.
#[derive(Debug, Clone, Copy, PartialEq, Eq, Structural)]
pub struct Percent {
    pub numerator: u128,
    pub denominator: u128,
}

/// `ticks` out of `total` as a percentage; zero when nothing was counted.
pub open spec fn percent_of(ticks: int, total: int) -> Percent {
    if total == 0 {
        Percent { numerator: 0, denominator: 1 }
    } else {
        Percent { numerator: (100 * ticks) as u128, denominator: total as u128 }
    }
}

/// The share of an interval that a CPU spent in each state, in percent.
/// `user` includes `nice`, and `guest` includes `guest_nice`.
#[derive(Debug, Clone, Copy, PartialEq, Eq, Structural)]
pub struct CpuUsage {
    pub user: Percent,
    pub system: Percent,
    pub idle: Percent,
    pub iowait: Percent,
    pub irq: Percent,
    pub softirq: Percent,
    pub steal: Percent,
    pub guest: Percent,
}

/// Each bucket's ticks as a percentage of all ticks of the interval.
pub open spec fn usage_of(t: CpuTimes) -> CpuUsage {
    let total = t.spec_total();
    CpuUsage {
        user: percent_of(t.user + t.nice, total),
        system: percent_of(t.system as int, total),
        idle: percent_of(t.idle as int, total),
        iowait: percent_of(t.iowait as int, total),
        irq: percent_of(t.irq as int, total),
        softirq: percent_of(t.softirq as int, total),
        steal: percent_of(t.steal as int, total),
        guest: percent_of(t.guest + t.guest_nice, total),
    }
}

/// Converts the tick deltas of one interval into percentages of that
/// interval. An interval without ticks reads as zero in every bucket.
pub fn normalize(times: CpuTimes) -> (r: CpuUsage)
    ensures
        r == usage_of(times),
        times.spec_total() == 0 ==> r.user.numerator == 0 && r.system.numerator == 0
            && r.idle.numerator == 0 && r.iowait.numerator == 0 && r.irq.numerator == 0
            && r.softirq.numerator == 0 && r.steal.numerator == 0 && r.guest.numerator == 0,
        times.spec_total() > 0 ==> r.user.numerator + r.system.numerator + r.idle.numerator
            + r.iowait.numerator + r.irq.numerator + r.softirq.numerator + r.steal.numerator
            + r.guest.numerator == 100 * r.user.denominator,
{
    let total: u128 = times.user as u128 + times.nice as u128 + times.system as u128
        + times.idle as u128 + times.iowait as u128 + times.irq as u128 + times.softirq as u128
        + times.steal as u128 + times.guest as u128 + times.guest_nice as u128;
    if total == 0 {
        let zero = Percent { numerator: 0, denominator: 1 };
        return CpuUsage {
            user: zero,
            system: zero,
            idle: zero,
            iowait: zero,
            irq: zero,
            softirq: zero,
            steal: zero,
            guest: zero,
        };
    }
    CpuUsage {
        user: Percent { numerator: 100 * (times.user as u128 + times.nice as u128), denominator: total },
        system: Percent { numerator: 100 * times.system as u128, denominator: total },
        idle: Percent { numerator: 100 * times.idle as u128, denominator: total },
        iowait: Percent { numerator: 100 * times.iowait as u128, denominator: total },
        irq: Percent { numerator: 100 * times.irq as u128, denominator: total },
        softirq: Percent { numerator: 100 * times.softirq as u128, denominator: total },
        steal: Percent { numerator: 100 * times.steal as u128, denominator: total },
        guest: Percent {
            numerator: 100 * (times.guest as u128 + times.guest_nice as u128),
            denominator: total,
        },
    }
}

/// The deltas of a scrape: for each entity seen both in the baseline `prev`
/// and in the scrape `cur`, the increase of its counters. Entities new in
/// `cur` get none; entities missing from `cur` are dropped.
pub open spec fn deltas_between(
    prev: Map<Seq<char>, CpuTimes>,
    cur: Map<Seq<char>, CpuTimes>,
) -> Map<Seq<char>, CpuTimes> {
    Map::new(
        |k: Seq<char>| cur.contains_key(k) && prev.contains_key(k),
        |k: Seq<char>| cur[k].delta_from(prev[k]),
    )
}

/// A line of the kernel's CPU statistics table: it starts with `cpu`.
pub open spec fn is_cpu_line(line: Seq<char>) -> bool {
    line.len() >= 3 && line[0] == 'c' && line[1] == 'p' && line[2] == 'u'
}

/// The counters of a CPU line split into words: the name, then at least
/// eight counters; the guest counters are zero where the line stops short.
pub open spec fn times_of_words(w: Seq<Seq<char>>) -> CpuTimes {
    CpuTimes {
        user: counter_of(w[1]),
        nice: counter_of(w[2]),
        system: counter_of(w[3]),
        idle: counter_of(w[4]),
        iowait: counter_of(w[5]),
        irq: counter_of(w[6]),
        softirq: counter_of(w[7]),
        steal: counter_of(w[8]),
        guest: if w.len() > 9 {
            counter_of(w[9])
        } else {
            0
        },
        guest_nice: if w.len() > 10 {
            counter_of(w[10])
        } else {
            0
        },
    }
}

/// A line that yields a snapshot: a CPU line with a name and eight counters.
pub open spec fn is_stat_record(line: Seq<char>) -> bool {
    is_cpu_line(line) && words_of(line).len() >= 9
}

/// The snapshot that a CPU statistics table gives: each record binds its
/// first word to its counters, a later record overriding an earlier one of
/// the same name; other lines are skipped.
pub open spec fn stat_snapshot(lines: Seq<String>) -> Map<Seq<char>, CpuTimes>
    decreases lines.len(),
{
    if lines.len() == 0 {
        Map::empty()
    } else {
        let rest = stat_snapshot(lines.drop_last());
        let line = lines.last()@;
        if is_stat_record(line) {
            rest.insert(words_of(line)[0], times_of_words(words_of(line)))
        } else {
            rest
        }
    }
}

/// Reads one line of the CPU statistics table: the entity's name and its
/// counters, or `None` for a line that is no record.
fn parse_stat_line(line: &str) -> (r: Option<(String, CpuTimes)>)
    ensures
        match r {
            Some(e) => is_stat_record(line@) && e.0@ == words_of(line@)[0] && e.1
                == times_of_words(words_of(line@)),
            None => !is_stat_record(line@),
        },
{
    let cs = crate::text::chars_of(line);
    if cs.len() < 3 || cs[0] != 'c' || cs[1] != 'p' || cs[2] != 'u' {
        return None;
    }
    let w = split_words(line);
    if w.len() < 9 {
        return None;
    }
    let guest = if w.len() > 9 {
        parse_counter(w[9].as_str())
    } else {
        0
    };
    let guest_nice = if w.len() > 10 {
        parse_counter(w[10].as_str())
    } else {
        0
    };
    let times = CpuTimes {
        user: parse_counter(w[1].as_str()),
        nice: parse_counter(w[2].as_str()),
        system: parse_counter(w[3].as_str()),
        idle: parse_counter(w[4].as_str()),
        iowait: parse_counter(w[5].as_str()),
        irq: parse_counter(w[6].as_str()),
        softirq: parse_counter(w[7].as_str()),
        steal: parse_counter(w[8].as_str()),
        guest,
        guest_nice,
    };
    Some((w[0].clone(), times))
}

/// The delta engine for CPU counters: it keeps the snapshot of the last
/// scrape and reports, per entity, the increase since then.
#[derive(Debug)]
pub struct CpuTimesCollector {
    last_times: EntityMap<CpuTimes>,
}

impl CpuTimesCollector {
    /// The snapshot of the last scrape, against which the next is measured.
    pub closed spec fn baseline(&self) -> Map<Seq<char>, CpuTimes> {
        self.last_times@
    }

    /// An engine with an empty baseline.
    pub fn new() -> (r: Self)
        ensures
            r.baseline() == Map::<Seq<char>, CpuTimes>::empty(),
    {
        CpuTimesCollector { last_times: EntityMap::new() }
    }

    /// Measures the scrape `current` against the baseline and makes it the
    /// new baseline, in place of the old one.
    pub fn update(&mut self, current: EntityMap<CpuTimes>) -> (r: EntityMap<CpuTimes>)
        ensures
            r@ == deltas_between(old(self).baseline(), current@),
            final(self).baseline() == current@,
    {
        let mut deltas: EntityMap<CpuTimes> = EntityMap::new();
        let entries = current.entries();
        let ghost prev = self.last_times@;
        let mut i: usize = 0;
        while i < entries.len()
            invariant
                i <= entries@.len(),
                prev == self.last_times@,
                entries@ == current.entry_seq(),
                crate::entity_map::names_distinct(entries@),
                forall|j: int|
                    #![trigger entries@[j]]
                    0 <= j < entries@.len() ==> current@.contains_key(entries@[j].0@)
                        && current@[entries@[j].0@] == entries@[j].1,
                forall|k: Seq<char>|
                    #![trigger deltas@.contains_key(k)]
                    deltas@.contains_key(k) <==> (prev.contains_key(k) && exists|j: int|
                        0 <= j < i && entries@[j].0@ == k),
                forall|k: Seq<char>|
                    #![trigger deltas@.contains_key(k)]
                    deltas@.contains_key(k) ==> current@.contains_key(k) && deltas@[k]
                        == current@[k].delta_from(prev[k]),
            decreases entries@.len() - i,
        {
            let name = &entries[i].0;
            let times = entries[i].1;
            match self.last_times.get(name.as_str()) {
                Some(last) => {
                    deltas.insert(name.clone(), times - *last);
                },
                None => {},
            }
            proof {
                assert forall|k: Seq<char>|
                    #![trigger deltas@.contains_key(k)]
                    deltas@.contains_key(k) <== (prev.contains_key(k) && exists|j: int|
                        0 <= j < i + 1 && entries@[j].0@ == k) by {
                    if prev.contains_key(k) {
                        let j = choose|j: int| 0 <= j < i + 1 && entries@[j].0@ == k;
                        if j < i {
                        }
                    }
                }
            }
            i = i + 1;
        }
        proof {
            assert(deltas@ =~= deltas_between(prev, current@)) by {
                assert forall|k: Seq<char>|
                    #![trigger current@.contains_key(k)]
                    current@.contains_key(k) && prev.contains_key(k) implies deltas@.contains_key(
                        k,
                    ) by {
                    let j = choose|j: int| 0 <= j < entries@.len() && entries@[j].0@ == k;
                }
            }
        }
        self.last_times = current;
        deltas
    }

    /// Reads one scrape of the CPU statistics table, line by line, measures
    /// it against the baseline and makes it the new baseline. The result holds
    /// a delta for each entity that the previous scrape had too.
    pub fn collect_from_reader(&mut self, lines: &Vec<String>) -> (r: EntityMap<CpuTimes>)
        ensures
            r@ == deltas_between(old(self).baseline(), stat_snapshot(lines@)),
            final(self).baseline() == stat_snapshot(lines@),
    {
        let mut current: EntityMap<CpuTimes> = EntityMap::new();
        let mut i: usize = 0;
        while i < lines.len()
            invariant
                i <= lines@.len(),
                current@ == stat_snapshot(lines@.take(i as int)),
            decreases lines@.len() - i,
        {
            proof {
                assert(lines@.take(i + 1).drop_last() == lines@.take(i as int));
            }
            match parse_stat_line(lines[i].as_str()) {
                Some(e) => {
                    current.insert(e.0, e.1);
                },
                None => {},
            }
            i = i + 1;
        }
        proof {
            assert(lines@.take(lines@.len() as int) == lines@);
        }
        self.update(current)
    }
}

/// Every counter of `later` is at least the matching counter of `earlier`.
pub open spec fn counters_not_below(later: CpuTimes, earlier: CpuTimes) -> bool {
    &&& later.user >= earlier.user
    &&& later.nice >= earlier.nice
    &&& later.system >= earlier.system
    &&& later.idle >= earlier.idle
    &&& later.iowait >= earlier.iowait
    &&& later.irq >= earlier.irq
    &&& later.softirq >= earlier.softirq
    &&& later.steal >= earlier.steal
    &&& later.guest >= earlier.guest
    &&& later.guest_nice >= earlier.guest_nice
}

/// An entity seen for the first time yields no delta: the scrape only sets
/// its baseline.
pub proof fn lemma_first_sighting_has_no_delta(
    prev: Map<Seq<char>, CpuTimes>,
    cur: Map<Seq<char>, CpuTimes>,
    name: Seq<char>,
)
    requires
        !prev.contains_key(name),
    ensures
        !deltas_between(prev, cur).contains_key(name),
{
}

/// An entity seen in two consecutive scrapes, with snapshot `a` and then `b`
/// not below `a`, yields the delta `b - a` field by field.
pub proof fn lemma_delta_of_consecutive_scrapes(
    prev: Map<Seq<char>, CpuTimes>,
    cur: Map<Seq<char>, CpuTimes>,
    name: Seq<char>,
)
    requires
        prev.contains_key(name),
        cur.contains_key(name),
        counters_not_below(cur[name], prev[name]),
    ensures
        deltas_between(prev, cur).contains_key(name),
        ({
            let (a, b, d) = (prev[name], cur[name], deltas_between(prev, cur)[name]);
            &&& d.user == b.user - a.user
            &&& d.nice == b.nice - a.nice
            &&& d.system == b.system - a.system
            &&& d.idle == b.idle - a.idle
            &&& d.iowait == b.iowait - a.iowait
            &&& d.irq == b.irq - a.irq
            &&& d.softirq == b.softirq - a.softirq
            &&& d.steal == b.steal - a.steal
            &&& d.guest == b.guest - a.guest
            &&& d.guest_nice == b.guest_nice - a.guest_nice
        }),
{
}

/// A counter that went down between two scrapes (a reset) has the delta
/// zero: never negative, never wrapped.
pub proof fn lemma_counter_reset_reads_zero(
    prev: Map<Seq<char>, CpuTimes>,
    cur: Map<Seq<char>, CpuTimes>,
    name: Seq<char>,
)
    requires
        prev.contains_key(name),
        cur.contains_key(name),
    ensures
        ({
            let (a, b, d) = (prev[name], cur[name], deltas_between(prev, cur)[name]);
            &&& b.user < a.user ==> d.user == 0
            &&& b.nice < a.nice ==> d.nice == 0
            &&& b.system < a.system ==> d.system == 0
            &&& b.idle < a.idle ==> d.idle == 0
            &&& b.iowait < a.iowait ==> d.iowait == 0
            &&& b.irq < a.irq ==> d.irq == 0
            &&& b.softirq < a.softirq ==> d.softirq == 0
            &&& b.steal < a.steal ==> d.steal == 0
            &&& b.guest < a.guest ==> d.guest == 0
            &&& b.guest_nice < a.guest_nice ==> d.guest_nice == 0
        }),
{
}

/// An entity present in the first scrape and absent from the second yields
/// no delta in the second, and, since the second scrape becomes the whole
/// baseline, none in the third either: it is measured afresh there.
pub proof fn lemma_vanished_entity_is_forgotten(
    first: Map<Seq<char>, CpuTimes>,
    second: Map<Seq<char>, CpuTimes>,
    third: Map<Seq<char>, CpuTimes>,
    name: Seq<char>,
)
    requires
        first.contains_key(name),
        !second.contains_key(name),
    ensures
        !deltas_between(first, second).contains_key(name),
        !deltas_between(second, third).contains_key(name),
{
}

} // verus!
