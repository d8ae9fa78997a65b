//! Choosing temperature sensors by label with include and exclude globs.
use vstd::prelude::*;
use crate::config::TemperatureCollectorConfig;

verus! {

/// Whether `pattern` is a glob that the `globset` crate accepts.
pub uninterp spec fn glob_compiles(pattern: Seq<char>) -> bool;

/// Whether the glob `pattern` matches `label`, as the `globset` crate
/// decides it.
pub uninterp spec fn glob_matches(pattern: Seq<char>, label: Seq<char>) -> bool;

#[verifier::external_type_specification]
#[verifier::external_body]
pub struct ExGlobSet(globset::GlobSet);

/// The globs a glob set was built from, in order.
pub uninterp spec fn glob_set_globs(set: globset::GlobSet) -> Seq<Seq<char>>;

/// Whether the `globset` crate builds a set from these valid globs; it
/// refuses one whose compiled matcher would pass its size limits.
pub uninterp spec fn glob_set_builds(globs: Seq<Seq<char>>) -> bool;

/// The texts of some strings.
pub open spec fn texts_of(ps: Seq<String>) -> Seq<Seq<char>> {
    ps.map_values(|s: String| s@)
}

/// The number of characters in all the texts together.
pub open spec fn text_len(ps: Seq<Seq<char>>) -> int
    decreases ps.len(),
{
    if ps.len() == 0 {
        0
    } else {
        text_len(ps.drop_last()) + ps.last().len()
    }
}

/// The most glob text one list may hold: far below what the automata that
/// `globset` builds can number their states with.
pub const GLOB_TEXT_LIMIT: u64 = 0x1000_0000;

/// Relies on `globset::Glob::new`: whether it accepts `pattern`.
#[verifier::external_body]
fn glob_is_valid(pattern: &str) -> (r: bool)
    ensures
        r == glob_compiles(pattern@),
{
    globset::Glob::new(pattern).is_ok()
}

/// Relies on `globset::GlobSet::empty`: a set of no globs.
#[verifier::external_body]
fn empty_glob_set() -> (r: globset::GlobSet)
    ensures
        glob_set_globs(r) == Seq::<Seq<char>>::empty(),
{
    globset::GlobSet::empty()
}

/// Relies on `globset::Glob::new`, `globset::GlobSetBuilder::add` and
/// `globset::GlobSetBuilder::build`: the set of the given valid globs, or
/// `None` where building it fails.
#[verifier::external_body]
fn build_glob_set(patterns: &Vec<String>) -> (r: Option<globset::GlobSet>)
    requires
        forall|i: int| 0 <= i < patterns@.len() ==> glob_compiles(#[trigger] patterns@[i]@),
        text_len(texts_of(patterns@)) <= GLOB_TEXT_LIMIT,
    ensures
        r is Some == glob_set_builds(texts_of(patterns@)),
        r matches Some(set) ==> glob_set_globs(set) == texts_of(patterns@),
{
    let mut builder = globset::GlobSetBuilder::new();
    for pattern in patterns.iter() {
        match globset::Glob::new(pattern) {
            Ok(glob) => {
                builder.add(glob);
            },
            Err(_) => return None,
        }
    }
    builder.build().ok()
}

/// Relies on `globset::GlobSet::is_match`: whether some glob of the set
/// matches `label`.
#[verifier::external_body]
fn glob_set_match(set: &globset::GlobSet, label: &str) -> (r: bool)
    ensures
        r == (exists|i: int| 0 <= i < glob_set_globs(*set).len() && #[trigger] glob_matches(glob_set_globs(*set)[i], label@)),
{
    set.is_match(label)
}

/// The patterns among `ps` that are valid globs, in order.
pub open spec fn valid_globs(ps: Seq<String>) -> Seq<Seq<char>>
    decreases ps.len(),
{
    if ps.len() == 0 {
        Seq::empty()
    } else if glob_compiles(ps.last()@) {
        valid_globs(ps.drop_last()).push(ps.last()@)
    } else {
        valid_globs(ps.drop_last())
    }
}

/// Some glob of `globs` matches `label`.
pub open spec fn any_glob_matches(globs: Seq<Seq<char>>, label: Seq<char>) -> bool {
    exists|i: int| 0 <= i < globs.len() && glob_matches(#[trigger] globs[i], label)
}

/// The globs that a set built from `globs` holds: all of them, or none
/// where building fails.
pub open spec fn glob_set_for(globs: Seq<Seq<char>>) -> Seq<Seq<char>> {
    if glob_set_builds(globs) {
        globs
    } else {
        Seq::empty()
    }
}

/// The valid globs among `patterns`.
fn keep_valid(patterns: &Vec<String>) -> (r: Vec<String>)
    ensures
        texts_of(r@) == valid_globs(patterns@),
{
    let mut r: Vec<String> = Vec::new();
    let mut i: usize = 0;
    while i < patterns.len()
        invariant
            i <= patterns@.len(),
            texts_of(r@) == valid_globs(patterns@.take(i as int)),
        decreases patterns@.len() - i,
    {
        proof {
            assert(patterns@.take(i + 1).drop_last() =~= patterns@.take(i as int));
            assert(patterns@.take(i + 1).last() == patterns@[i as int]);
        }
        if glob_is_valid(patterns[i].as_str()) {
            let ghost before = r@;
            r.push(patterns[i].clone());
            proof {
                assert(texts_of(r@) =~= texts_of(before).push(patterns@[i as int]@));
            }
        }
        i = i + 1;
    }
    proof {
        assert(patterns@.take(patterns@.len() as int) =~= patterns@);
    }
    r
}

proof fn lemma_valid_globs_compile(ps: Seq<String>)
    ensures
        forall|i: int|
            0 <= i < valid_globs(ps).len() ==> glob_compiles(#[trigger] valid_globs(ps)[i]),
    decreases ps.len(),
{
    if ps.len() > 0 {
        let rest = valid_globs(ps.drop_last());
        lemma_valid_globs_compile(ps.drop_last());
        assert forall|i: int|
            0 <= i < valid_globs(ps).len() implies glob_compiles(#[trigger] valid_globs(ps)[i]) by {
            if i < rest.len() {
                assert(valid_globs(ps)[i] == rest[i]);
            }
        }
    }
}

proof fn lemma_text_len_nonneg(ps: Seq<Seq<char>>)
    ensures
        text_len(ps) >= 0,
    decreases ps.len(),
{
    if ps.len() > 0 {
        lemma_text_len_nonneg(ps.drop_last());
    }
}

proof fn lemma_valid_globs_shorter(ps: Seq<String>)
    ensures
        text_len(valid_globs(ps)) <= text_len(texts_of(ps)),
    decreases ps.len(),
{
    if ps.len() > 0 {
        lemma_valid_globs_shorter(ps.drop_last());
        assert(texts_of(ps).drop_last() =~= texts_of(ps.drop_last()));
        assert(valid_globs(ps).len() > 0 ==> valid_globs(ps).drop_last() == valid_globs(
            ps.drop_last(),
        ) || valid_globs(ps) == valid_globs(ps.drop_last()));
        if glob_compiles(ps.last()@) {
            assert(valid_globs(ps).drop_last() =~= valid_globs(ps.drop_last()));
        }
    }
}

proof fn lemma_text_len_prefix(ps: Seq<Seq<char>>, k: int)
    requires
        0 <= k <= ps.len(),
    ensures
        text_len(ps.take(k)) <= text_len(ps),
    decreases ps.len(),
{
    if k < ps.len() {
        assert(ps.drop_last().take(k) =~= ps.take(k));
        lemma_text_len_prefix(ps.drop_last(), k);
    } else {
        assert(ps.take(k) =~= ps);
    }
}

/// Whether a list of glob patterns is short enough for a glob set.
pub fn globs_fit(patterns: &Vec<String>) -> (r: bool)
    ensures
        r == (text_len(texts_of(patterns@)) <= GLOB_TEXT_LIMIT),
{
    let ghost ts = texts_of(patterns@);
    let mut total: u64 = 0;
    let mut i: usize = 0;
    while i < patterns.len()
        invariant
            i <= patterns@.len(),
            ts == texts_of(patterns@),
            total == text_len(ts.take(i as int)),
            total <= GLOB_TEXT_LIMIT,
        decreases patterns@.len() - i,
    {
        let n = patterns[i].as_str().unicode_len();
        proof {
            assert(ts.take(i + 1).drop_last() =~= ts.take(i as int));
            assert(ts.take(i + 1).last() == patterns@[i as int]@);
        }
        if n as u64 > GLOB_TEXT_LIMIT - total {
            proof {
                lemma_text_len_prefix(ts, i + 1);
            }
            return false;
        }
        total = total + n as u64;
        i = i + 1;
    }
    proof {
        assert(ts.take(i as int) =~= ts);
    }
    true
}

/// Whether both glob lists of the settings are short enough.
pub fn filter_fits(config: &TemperatureCollectorConfig) -> (r: bool)
    ensures
        r == (text_len(texts_of(config.included@)) <= GLOB_TEXT_LIMIT && text_len(
            texts_of(config.excluded@),
        ) <= GLOB_TEXT_LIMIT),
{
    globs_fit(&config.included) && globs_fit(&config.excluded)
}

/// The glob set of the valid patterns among `patterns`; the empty set where
/// building it fails.
/// It comes with whether the set holds any glob.
fn glob_set_of(patterns: &Vec<String>) -> (r: (globset::GlobSet, bool))
    requires
        text_len(texts_of(patterns@)) <= GLOB_TEXT_LIMIT,
    ensures
        glob_set_globs(r.0) == glob_set_for(valid_globs(patterns@)),
        r.1 == (glob_set_globs(r.0).len() > 0),
{
    let valid = keep_valid(patterns);
    proof {
        lemma_valid_globs_compile(patterns@);
        lemma_valid_globs_shorter(patterns@);
        assert forall|i: int| 0 <= i < valid@.len() implies glob_compiles(#[trigger] valid@[i]@) by {
            assert(texts_of(valid@)[i] == valid@[i]@);
        }
    }
    match build_glob_set(&valid) {
        Some(set) => (set, valid.len() > 0),
        None => (empty_glob_set(), false),
    }
}

/// The decision for one sensor, given whether any include glob is set,
/// whether one of them matches, and whether an exclude glob matches.
pub fn sensor_selected(has_include: bool, include_matches: bool, exclude_matches: bool) -> (r: bool)
    ensures
        r == ((!has_include || include_matches) && !exclude_matches),
{
    (!has_include || include_matches) && !exclude_matches
}

/// A sensor is reported when the include set is empty or matches its label,
/// and the exclude set does not match it. Invalid globs are left out, and a
/// set that cannot be built is empty.
#[derive(Debug)]
pub struct SensorFilter {
    included: globset::GlobSet,
    excluded: globset::GlobSet,
    has_include: bool,
}

impl SensorFilter {
    /// The globs of the include set.
    pub closed spec fn include_globs(&self) -> Seq<Seq<char>> {
        glob_set_globs(self.included)
    }

    /// The globs of the exclude set.
    pub closed spec fn exclude_globs(&self) -> Seq<Seq<char>> {
        glob_set_globs(self.excluded)
    }

    #[verifier::type_invariant]
    closed spec fn knows_include_is_set(self) -> bool {
        self.has_include == (glob_set_globs(self.included).len() > 0)
    }

    /// The filter of a temperature collector's settings: each set holds the
    /// valid globs of its list, or nothing where the set cannot be built.
    pub fn new(config: &TemperatureCollectorConfig) -> (r: Self)
        requires
            text_len(texts_of(config.included@)) <= GLOB_TEXT_LIMIT,
            text_len(texts_of(config.excluded@)) <= GLOB_TEXT_LIMIT,
        ensures
            r.include_globs() == glob_set_for(valid_globs(config.included@)),
            r.exclude_globs() == glob_set_for(valid_globs(config.excluded@)),
    {
        let (included, has_include) = glob_set_of(&config.included);
        let (excluded, _) = glob_set_of(&config.excluded);
        SensorFilter { included, excluded, has_include }
    }

    /// Whether the sensor with `label` is reported.
    pub fn selects(&self, label: &str) -> (r: bool)
        ensures
            r == ((self.include_globs().len() == 0 || any_glob_matches(
                self.include_globs(),
                label@,
            )) && !any_glob_matches(self.exclude_globs(), label@)),
    {
        proof {
            use_type_invariant(self);
        }
        let include_matches = self.has_include && glob_set_match(&self.included, label);
        let exclude_matches = glob_set_match(&self.excluded, label);
        sensor_selected(self.has_include, include_matches, exclude_matches)
    }
}

} // verus!
