//! Network-interface figures turned into metrics.
use vstd::prelude::*;
use crate::line_protocol::Metric;
use crate::text::{decimal, pattern_matches, push_decimal, regex_matches, string_from_chars};

verus! {

/// The interfaces whose figures are reported: wired, wireless and mobile
/// ones, by their kernel name prefix.
pub const INTERFACE_PATTERN: &'static str = "^(en|wl|ww)";

/// Whether an interface is one whose figures are reported.
pub fn is_reported_interface(name: &str) -> (r: bool)
    ensures
        r == regex_matches(INTERFACE_PATTERN@, name@),
{
    pattern_matches(INTERFACE_PATTERN, name)
}

/// The cumulative traffic of one network interface.
#[derive(Debug)]
pub struct InterfaceCounters {
    pub name: String,
    pub received: u64,
    pub transmitted: u64,
    pub packets_received: u64,
    pub packets_transmitted: u64,
}

/// The metrics of one interface, as name, value and tags, in the order they
/// are reported.
pub open spec fn interface_readings(c: InterfaceCounters) -> Seq<
    (Seq<char>, Seq<char>, Seq<(Seq<char>, Seq<char>)>),
> {
    let tags = seq![("interface"@, c.name@)];
    seq![
        ("network_received"@, decimal(c.received as nat), tags),
        ("network_transmitted"@, decimal(c.transmitted as nat), tags),
        ("network_packets_received"@, decimal(c.packets_received as nat), tags),
        ("network_packets_transmitted"@, decimal(c.packets_transmitted as nat), tags),
    ]
}

/// The metrics of the reported interfaces among `cs`, in their order.
pub open spec fn network_readings(cs: Seq<InterfaceCounters>) -> Seq<
    (Seq<char>, Seq<char>, Seq<(Seq<char>, Seq<char>)>),
>
    decreases cs.len(),
{
    if cs.len() == 0 {
        Seq::empty()
    } else if regex_matches(INTERFACE_PATTERN@, cs.last().name@) {
        network_readings(cs.drop_last()) + interface_readings(cs.last())
    } else {
        network_readings(cs.drop_last())
    }
}

/// Appends a metric tagged with the interface.
fn push_interface_reading(metrics: &mut Vec<Metric>, name: &str, value: u64, interface: &String)
    ensures
        final(metrics)@.map_values(|m: Metric| m@) == old(metrics)@.map_values(|m: Metric| m@).push(
            (name@, decimal(value as nat), seq![("interface"@, interface@)]),
        ),
{
    let mut digits: Vec<char> = Vec::new();
    push_decimal(&mut digits, value as u128);
    let mut tags: Vec<(String, String)> = Vec::new();
    tags.push((String::from_str("interface"), interface.clone()));
    let m = Metric { name: String::from_str(name), value: string_from_chars(&digits), tags };
    let ghost before = metrics@;
    metrics.push(m);
    proof {
        assert(m.tags@.map_values(|t: (String, String)| (t.0@, t.1@)) =~= seq![
            ("interface"@, interface@),
        ]);
        assert(metrics@.map_values(|m: Metric| m@) =~= before.map_values(|m: Metric| m@).push(
            (name@, decimal(value as nat), seq![("interface"@, interface@)]),
        ));
    }
}

/// The four traffic metrics of one interface, tagged with its name.
pub fn interface_metrics(c: &InterfaceCounters) -> (r: Vec<Metric>)
    ensures
        r@.map_values(|m: Metric| m@) == interface_readings(*c),
{
    let mut metrics: Vec<Metric> = Vec::new();
    push_interface_reading(&mut metrics, "network_received", c.received, &c.name);
    push_interface_reading(&mut metrics, "network_transmitted", c.transmitted, &c.name);
    push_interface_reading(&mut metrics, "network_packets_received", c.packets_received, &c.name);
    push_interface_reading(
        &mut metrics,
        "network_packets_transmitted",
        c.packets_transmitted,
        &c.name,
    );
    proof {
        assert(metrics@.map_values(|m: Metric| m@) =~= interface_readings(*c));
    }
    metrics
}

/// The traffic metrics of the reported interfaces: for each, in order, bytes
/// and packets received and transmitted, tagged with the interface's name.
pub fn network_metrics(interfaces: &Vec<InterfaceCounters>) -> (r: Vec<Metric>)
    ensures
        r@.map_values(|m: Metric| m@) == network_readings(interfaces@),
{
    let mut metrics: Vec<Metric> = Vec::new();
    let mut i: usize = 0;
    while i < interfaces.len()
        invariant
            i <= interfaces@.len(),
            metrics@.map_values(|m: Metric| m@) == network_readings(interfaces@.take(i as int)),
        decreases interfaces@.len() - i,
    {
        let c = &interfaces[i];
        proof {
            assert(interfaces@.take(i + 1).drop_last() =~= interfaces@.take(i as int));
            assert(interfaces@.take(i + 1).last() == *c);
        }
        if is_reported_interface(c.name.as_str()) {
            let ghost before = metrics@.map_values(|m: Metric| m@);
            let mut more = interface_metrics(c);
            let ghost added = more@;
            metrics.append(&mut more);
            proof {
                assert(metrics@.map_values(|m: Metric| m@) =~= before + added.map_values(
                    |m: Metric| m@,
                ));
            }
        }
        i = i + 1;
    }
    proof {
        assert(interfaces@.take(interfaces@.len() as int) =~= interfaces@);
    }
    metrics
}

} // verus!
