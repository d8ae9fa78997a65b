//! The naming rules of graphics-card sensors: which hardware-monitor files
//! hold readings, where their labels are, and how a label becomes part of a
//! metric name.
use vstd::prelude::*;
use vstd::string::StringExecFns;
use crate::text::{chars_of, string_from_chars, trim, trimmed};

verus! {

/// `s` begins with `p`.
pub open spec fn has_prefix(s: Seq<char>, p: Seq<char>) -> bool {
    p.len() <= s.len() && s.take(p.len() as int) == p
}

/// `s` ends with `p`.
pub open spec fn has_suffix(s: Seq<char>, p: Seq<char>) -> bool {
    p.len() <= s.len() && s.skip(s.len() - p.len()) == p
}

fn starts_with(cs: &Vec<char>, p: &str) -> (r: bool)
    ensures
        r == has_prefix(cs@, p@),
{
    let ps = chars_of(p);
    if ps.len() > cs.len() {
        return false;
    }
    let mut i: usize = 0;
    while i < ps.len()
        invariant
            ps@ == p@,
            ps@.len() <= cs@.len(),
            i <= ps@.len(),
            forall|j: int| 0 <= j < i ==> cs@[j] == ps@[j],
        decreases ps@.len() - i,
    {
        if cs[i] != ps[i] {
            assert(cs@.take(ps@.len() as int)[i as int] != ps@[i as int]);
            return false;
        }
        i = i + 1;
    }
    assert(cs@.take(ps@.len() as int) =~= ps@);
    true
}

fn ends_with(cs: &Vec<char>, p: &str) -> (r: bool)
    ensures
        r == has_suffix(cs@, p@),
{
    let ps = chars_of(p);
    if ps.len() > cs.len() {
        return false;
    }
    let n = cs.len();
    let start = n - ps.len();
    let mut i: usize = 0;
    while i < ps.len()
        invariant
            ps@ == p@,
            n == cs@.len(),
            ps@.len() <= n,
            start == n - ps@.len(),
            i <= ps@.len(),
            forall|j: int| 0 <= j < i ==> cs@[start + j] == ps@[j],
        decreases ps@.len() - i,
    {
        if cs[start + i] != ps[i] {
            assert(cs@.skip(start as int)[i as int] != ps@[i as int]);
            return false;
        }
        i = i + 1;
    }
    assert(cs@.skip(start as int) =~= ps@);
    true
}

/// What a hardware-monitor reading measures.
#[derive(Debug, Clone, Copy, PartialEq, Eq, Structural)]
pub enum SensorKind {
    Temperature,
    Voltage,
}

/// The kind of reading a hardware-monitor file holds: `temp*_input` files
/// hold temperatures, `in*_input` files voltages, others neither.
pub open spec fn sensor_kind_of(file_name: Seq<char>) -> Option<SensorKind> {
    if has_prefix(file_name, "temp"@) && has_suffix(file_name, "_input"@) {
        Some(SensorKind::Temperature)
    } else if has_prefix(file_name, "in"@) && has_suffix(file_name, "_input"@) {
        Some(SensorKind::Voltage)
    } else {
        None
    }
}

/// The kind of reading a hardware-monitor file holds.
pub fn sensor_kind(file_name: &str) -> (r: Option<SensorKind>)
    ensures
        r == sensor_kind_of(file_name@),
{
    let cs = chars_of(file_name);
    if starts_with(&cs, "temp") && ends_with(&cs, "_input") {
        Some(SensorKind::Temperature)
    } else if starts_with(&cs, "in") && ends_with(&cs, "_input") {
        Some(SensorKind::Voltage)
    } else {
        None
    }
}

/// `s` with every `_input`, from left to right and without overlap, replaced
/// by `_label`.
pub open spec fn input_to_label(s: Seq<char>) -> Seq<char>
    decreases s.len(),
{
    if s.len() == 0 {
        s
    } else if has_prefix(s, seq!['_', 'i', 'n', 'p', 'u', 't']) {
        seq!['_', 'l', 'a', 'b', 'e', 'l'] + input_to_label(s.skip(6))
    } else {
        seq![s[0]] + input_to_label(s.drop_first())
    }
}

/// The name of the file that holds the label of a reading's file.
pub fn label_file_name(file_name: &str) -> (r: String)
    ensures
        r@ == input_to_label(file_name@),
{
    let cs = chars_of(file_name);
    let mut out: Vec<char> = Vec::new();
    let mut i: usize = 0;
    proof {
        assert(cs@.skip(0) =~= cs@);
    }
    while i < cs.len()
        invariant
            i <= cs@.len(),
            cs@ == file_name@,
            input_to_label(cs@) == out@ + input_to_label(cs@.skip(i as int)),
        decreases cs@.len() - i,
    {
        let ghost rest = cs@.skip(i as int);
        let ghost before = out@;
        if cs.len() - i >= 6 && cs[i] == '_' && cs[i + 1] == 'i' && cs[i + 2] == 'n' && cs[i
            + 3] == 'p' && cs[i + 4] == 'u' && cs[i + 5] == 't' {
            proof {
                assert(rest.take(6) =~= seq!['_', 'i', 'n', 'p', 'u', 't']);
                assert(rest.skip(6) =~= cs@.skip(i + 6));
            }
            out.push('_');
            out.push('l');
            out.push('a');
            out.push('b');
            out.push('e');
            out.push('l');
            proof {
                assert(input_to_label(rest) == seq!['_', 'l', 'a', 'b', 'e', 'l'] + input_to_label(cs@.skip(i + 6)));
                assert(out@ =~= before + seq!['_', 'l', 'a', 'b', 'e', 'l']);
                assert(before + (seq!['_', 'l', 'a', 'b', 'e', 'l'] + input_to_label(cs@.skip(i + 6))) =~= out@
                    + input_to_label(cs@.skip(i + 6)));
            }
            i = i + 6;
        } else {
            proof {
                if rest.len() >= 6 && rest.take(6) == seq!['_', 'i', 'n', 'p', 'u', 't'] {
                    assert(rest.take(6)[1] == 'i');
                    assert(false);
                }
                assert(rest.drop_first() =~= cs@.skip(i + 1));
            }
            out.push(cs[i]);
            proof {
                assert(input_to_label(rest) == seq![rest[0]] + input_to_label(cs@.skip(i + 1)));
                assert(before + (seq![rest[0]] + input_to_label(cs@.skip(i + 1))) =~= out@
                    + input_to_label(cs@.skip(i + 1)));
            }
            i = i + 1;
        }
    }
    proof {
        assert(cs@.skip(i as int) =~= Seq::<char>::empty());
        assert(out@ + Seq::<char>::empty() =~= out@);
    }
    string_from_chars(&out)
}

/// The text in lower case, as `str::to_lowercase` gives it.
pub uninterp spec fn lowercase(s: Seq<char>) -> Seq<char>;

/// Relies on `str::to_lowercase`: the text in lower case.
#[verifier::external_body]
fn to_lower(s: &str) -> (r: String)
    ensures
        r@ == lowercase(s@),
{
    s.to_lowercase()
}

/// Each space of the text replaced by an underscore.
pub open spec fn underscored(s: Seq<char>) -> Seq<char> {
    s.map_values(|c: char| if c == ' ' { '_' } else { c })
}

/// Each space of the text replaced by an underscore.
pub fn underscore_spaces(s: &str) -> (r: String)
    ensures
        r@ == underscored(s@),
{
    let cs = chars_of(s);
    let mut out: Vec<char> = Vec::new();
    let mut i: usize = 0;
    while i < cs.len()
        invariant
            i <= cs@.len(),
            out@ == underscored(cs@.take(i as int)),
        decreases cs@.len() - i,
    {
        if cs[i] == ' ' {
            out.push('_');
        } else {
            out.push(cs[i]);
        }
        proof {
            assert(out@ =~= underscored(cs@.take(i + 1)));
        }
        i = i + 1;
    }
    proof {
        assert(cs@.take(cs@.len() as int) =~= cs@);
    }
    string_from_chars(&out)
}

/// A sensor's label as it stands in a metric name: trimmed, in lower case,
/// with underscores for spaces.
pub fn sensor_label(raw: &str) -> (r: String)
    ensures
        r@ == underscored(lowercase(trimmed(raw@))),
{
    let t = trim(raw);
    let lower = to_lower(t.as_str());
    underscore_spaces(lower.as_str())
}

/// The metric name of a reading with the given label.
pub fn sensor_metric_name(kind: SensorKind, label: &str) -> (r: String)
    ensures
        r@ == match kind {
            SensorKind::Temperature => "gpu_temperature_"@,
            SensorKind::Voltage => "gpu_voltage_"@,
        } + label@,
{
    match kind {
        SensorKind::Temperature => String::from_str("gpu_temperature_").concat(label),
        SensorKind::Voltage => String::from_str("gpu_voltage_").concat(label),
    }
}

/// Whether a card's vendor file names AMD (`0x1002`).
pub fn is_amd_vendor(vendor: &str) -> (r: bool)
    ensures
        r == (trimmed(vendor@) == "0x1002"@),
{
    trim(vendor) == String::from_str("0x1002")
}

/// Whether a display-device entry's name begins with `card`.
pub fn is_card_name(name: &str) -> (r: bool)
    ensures
        r == has_prefix(name@, "card"@),
{
    let cs = chars_of(name);
    starts_with(&cs, "card")
}

} // verus!
