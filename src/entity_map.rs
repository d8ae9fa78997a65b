//! A map from entity names (a core, a device, a meminfo key) to values, kept
//! in the order in which the names were first inserted.
use vstd::prelude::*;

verus! {

/// The mapping that a sequence of `(name, value)` entries denotes: each entry
/// binds its name, and a later entry overrides an earlier one.
pub open spec fn map_of<V>(s: Seq<(String, V)>) -> Map<Seq<char>, V>
    decreases s.len(),
{
    if s.len() == 0 {
        Map::empty()
    } else {
        map_of(s.drop_last()).insert(s.last().0@, s.last().1)
    }
}

/// No two entries carry the same name.
pub open spec fn names_distinct<V>(s: Seq<(String, V)>) -> bool {
    forall|i: int, j: int| 0 <= i < j < s.len() ==> s[i].0@ != s[j].0@
}

proof fn lemma_map_of_domain<V>(s: Seq<(String, V)>, k: Seq<char>)
    ensures
        map_of(s).dom().finite(),
        map_of(s).contains_key(k) <==> exists|i: int| 0 <= i < s.len() && s[i].0@ == k,
    decreases s.len(),
{
    if s.len() > 0 {
        let t = s.drop_last();
        lemma_map_of_domain(t, k);
        if map_of(s).contains_key(k) && s.last().0@ != k {
            let i = choose|i: int| 0 <= i < t.len() && t[i].0@ == k;
            assert(s[i].0@ == k);
        }
        if exists|i: int| 0 <= i < s.len() && s[i].0@ == k {
            let i = choose|i: int| 0 <= i < s.len() && s[i].0@ == k;
            if i < s.len() - 1 {
                assert(t[i].0@ == k);
            }
        }
    }
}

proof fn lemma_map_of_entry<V>(s: Seq<(String, V)>, i: int)
    requires
        names_distinct(s),
        0 <= i < s.len(),
    ensures
        map_of(s).contains_key(s[i].0@),
        map_of(s)[s[i].0@] == s[i].1,
    decreases s.len(),
{
    let t = s.drop_last();
    if i < s.len() - 1 {
        lemma_map_of_entry(t, i);
        assert(s.last().0@ != s[i].0@);
    }
}

proof fn lemma_map_of_len<V>(s: Seq<(String, V)>)
    requires
        names_distinct(s),
    ensures
        map_of(s).len() == s.len(),
    decreases s.len(),
{
    if s.len() > 0 {
        let t = s.drop_last();
        lemma_map_of_len(t);
        lemma_map_of_domain(t, s.last().0@);
        if map_of(t).contains_key(s.last().0@) {
            let i = choose|i: int| 0 <= i < t.len() && t[i].0@ == s.last().0@;
            assert(s[i].0@ == s[s.len() - 1].0@);
        }
    }
}

proof fn lemma_map_of_update<V>(s: Seq<(String, V)>, i: int, e: (String, V))
    requires
        names_distinct(s),
        0 <= i < s.len(),
        s[i].0@ == e.0@,
    ensures
        map_of(s.update(i, e)) == map_of(s).insert(e.0@, e.1),
    decreases s.len(),
{
    let t = s.drop_last();
    let u = s.update(i, e);
    if i == s.len() - 1 {
        assert(u.drop_last() == t);
        assert(map_of(u) =~= map_of(s).insert(e.0@, e.1));
    } else {
        assert(u.drop_last() == t.update(i, e));
        lemma_map_of_update(t, i, e);
        assert(s.last().0@ != s[i].0@);
        assert(map_of(u) =~= map_of(s).insert(e.0@, e.1));
    }
}

/// A map from names to values that remembers the order of first insertion.
#[derive(Debug)]
#[verifier::reject_recursive_types(V)]
pub struct EntityMap<V> {
    entries: Vec<(String, V)>,
}

impl<V> View for EntityMap<V> {
    type V = Map<Seq<char>, V>;

    closed spec fn view(&self) -> Map<Seq<char>, V> {
        map_of(self.entries@)
    }
}

impl<V> EntityMap<V> {
    #[verifier::type_invariant]
    closed spec fn names_are_distinct(self) -> bool {
        names_distinct(self.entries@)
    }

    /// The entries, in order of first insertion.
    pub closed spec fn entry_seq(&self) -> Seq<(String, V)> {
        self.entries@
    }

    /// An empty map.
    pub fn new() -> (r: Self)
        ensures
            r@ == Map::<Seq<char>, V>::empty(),
            r.entry_seq().len() == 0,
    {
        EntityMap { entries: Vec::new() }
    }

    /// Where `name` stands among the entries, if it is bound.
    fn position(&self, name: &str) -> (r: Option<usize>)
        ensures
            match r {
                Some(i) => i < self.entries@.len() && self.entries@[i as int].0@ == name@,
                None => !self@.contains_key(name@),
            },
    {
        let key = String::from_str(name);
        let mut i: usize = 0;
        while i < self.entries.len()
            invariant
                i <= self.entries@.len(),
                key@ == name@,
                forall|j: int| 0 <= j < i ==> self.entries@[j].0@ != name@,
            decreases self.entries@.len() - i,
        {
            if self.entries[i].0 == key {
                return Some(i);
            }
            i = i + 1;
        }
        proof {
            lemma_map_of_domain(self.entries@, name@);
        }
        None
    }

    /// Binds `name` to `value`, replacing an earlier binding of the name in
    /// place; a new name goes after all others.
    pub fn insert(&mut self, name: String, value: V)
        ensures
            final(self)@ == old(self)@.insert(name@, value),
            old(self)@.contains_key(name@) ==> final(self).entry_seq().len() == old(
                self,
            ).entry_seq().len(),
            !old(self)@.contains_key(name@) ==> final(self).entry_seq() == old(
                self,
            ).entry_seq().push((name, value)),
    {
        let found = self.position(name.as_str());
        let mut taken = EntityMap::new();
        core::mem::swap(self, &mut taken);
        proof {
            use_type_invariant(&taken);
        }
        let mut entries = taken.entries;
        match found {
            Some(i) => {
                proof {
                    lemma_map_of_domain(entries@, name@);
                    lemma_map_of_update(entries@, i as int, (name, value));
                }
                entries.set(i, (name, value));
            },
            None => {
                proof {
                    lemma_map_of_domain(entries@, name@);
                    assert forall|a: int, b: int|
                        0 <= a < b < entries@.len() + 1 implies #[trigger] entries@.push(
                        (name, value),
                    )[a].0@ != #[trigger] entries@.push((name, value))[b].0@ by {
                        if b == entries@.len() {
                            assert(entries@[a].0@ != name@);
                        }
                    }
                    assert(entries@.push((name, value)).drop_last() == entries@);
                }
                entries.push((name, value));
            },
        }
        *self = EntityMap { entries };
    }

    /// The value bound to `name`, if any.
    pub fn get(&self, name: &str) -> (r: Option<&V>)
        ensures
            match r {
                Some(v) => self@.contains_key(name@) && *v == self@[name@],
                None => !self@.contains_key(name@),
            },
    {
        proof {
            use_type_invariant(self);
        }
        match self.position(name) {
            Some(i) => {
                proof {
                    lemma_map_of_entry(self.entries@, i as int);
                }
                Some(&self.entries[i].1)
            },
            None => None,
        }
    }

    /// Whether `name` is bound.
    pub fn contains_key(&self, name: &str) -> (r: bool)
        ensures
            r == self@.contains_key(name@),
    {
        self.get(name).is_some()
    }

    /// The number of bindings.
    pub fn len(&self) -> (r: usize)
        ensures
            r == self@.len(),
    {
        proof {
            use_type_invariant(self);
            lemma_map_of_len(self.entries@);
        }
        self.entries.len()
    }

    /// Whether there are no bindings.
    pub fn is_empty(&self) -> (r: bool)
        ensures
            r == (self@.len() == 0),
    {
        self.len() == 0
    }

    /// The entries, in order of first insertion.
    /// Every entry is a binding of the map, the names are distinct, and every
    /// binding has its entry.
    pub fn entries(&self) -> (r: &Vec<(String, V)>)
        ensures
            r@ == self.entry_seq(),
            names_distinct(r@),
            r@.len() == self@.len(),
            forall|i: int|
                #![trigger r@[i]]
                0 <= i < r@.len() ==> self@.contains_key(r@[i].0@) && self@[r@[i].0@] == r@[i].1,
            forall|k: Seq<char>|
                #![trigger self@.contains_key(k)]
                self@.contains_key(k) ==> exists|i: int| 0 <= i < r@.len() && r@[i].0@ == k,
    {
        proof {
            use_type_invariant(self);
            lemma_map_of_len(self.entries@);
            assert forall|i: int|
                #![trigger self.entries@[i]]
                0 <= i < self.entries@.len() implies self@.contains_key(self.entries@[i].0@)
                    && self@[self.entries@[i].0@] == self.entries@[i].1 by {
                lemma_map_of_entry(self.entries@, i);
            }
            assert forall|k: Seq<char>|
                #![trigger self@.contains_key(k)]
                self@.contains_key(k) implies exists|i: int|
                    0 <= i < self.entries@.len() && self.entries@[i].0@ == k by {
                lemma_map_of_domain(self.entries@, k);
            }
        }
        &self.entries
    }
}

} // verus!
