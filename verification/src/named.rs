//! A map from names to values, kept as a list of entries with distinct names.
use vstd::prelude::*;

verus! {

/// The name of entry `i`.
pub open spec fn name_at<V>(es: Seq<(String, V)>, i: int) -> Seq<char> {
    es[i].0@
}

/// No two entries carry the same name.
pub open spec fn unique_names<V>(es: Seq<(String, V)>) -> bool {
    forall|i: int, j: int|
        0 <= i < es.len() && 0 <= j < es.len() && i != j ==> #[trigger] name_at(es, i) != #[trigger] name_at(
            es,
            j,
        )
}

/// Some entry carries the name `k`.
pub open spec fn has_name<V>(es: Seq<(String, V)>, k: Seq<char>) -> bool {
    exists|i: int| 0 <= i < es.len() && #[trigger] name_at(es, i) == k
}

/// The position of the entry named `k`.
pub open spec fn position_of<V>(es: Seq<(String, V)>, k: Seq<char>) -> int {
    choose|i: int| 0 <= i < es.len() && #[trigger] name_at(es, i) == k
}

/// The map that a list of entries stands for: each name to its entry's value.
pub open spec fn entries_map<V: View>(es: Seq<(String, V)>) -> Map<Seq<char>, V::V> {
    Map::new(|k: Seq<char>| has_name(es, k), |k: Seq<char>| es[position_of(es, k)].1@)
}

/// Entry `i` stands in the map with its value.
pub proof fn lemma_entry_in_map<V: View>(es: Seq<(String, V)>, i: int)
    requires
        unique_names(es),
        0 <= i < es.len(),
    ensures
        entries_map(es).contains_key(es[i].0@),
        entries_map(es)[es[i].0@] == es[i].1@,
{
    lemma_position(es, i, es[i].0@);
}

/// Entries with the same names, position by position, and values mapped by
/// `f` stand for the map with its values mapped by `f`.
pub proof fn lemma_same_names_map<V: View, W: View>(
    es: Seq<(String, V)>,
    out: Seq<(String, W)>,
    f: spec_fn(V::V) -> W::V,
)
    requires
        unique_names(es),
        out.len() == es.len(),
        forall|j: int| 0 <= j < es.len() ==> #[trigger] name_at(out, j) == name_at(es, j),
        forall|j: int| 0 <= j < es.len() ==> #[trigger] out[j].1@ == f(es[j].1@),
    ensures
        unique_names(out),
        entries_map(out) == entries_map(es).map_values(f),
{
    assert(unique_names(out)) by {
        assert forall|a: int, b: int|
            0 <= a < out.len() && 0 <= b < out.len() && a != b implies #[trigger] name_at(out, a)
            != #[trigger] name_at(out, b) by {
            assert(name_at(out, a) == name_at(es, a));
            assert(name_at(out, b) == name_at(es, b));
        }
    }
    assert forall|k: Seq<char>| #[trigger] has_name(out, k) == has_name(es, k) by {
        if has_name(out, k) {
            let p = choose|p: int| 0 <= p < out.len() && #[trigger] name_at(out, p) == k;
            assert(name_at(es, p) == k);
        }
        if has_name(es, k) {
            let p = choose|p: int| 0 <= p < es.len() && #[trigger] name_at(es, p) == k;
            assert(name_at(out, p) == k);
        }
    }
    assert forall|k: Seq<char>| has_name(out, k) implies #[trigger] entries_map(out)[k] == f(
        entries_map(es)[k],
    ) by {
        let p = position_of(out, k);
        assert(name_at(out, p) == k);
        assert(name_at(es, p) == k);
        lemma_position(es, p, k);
    }
    assert(entries_map(out) =~= entries_map(es).map_values(f));
}

/// The value of `k` in `m`, if it has one.
pub open spec fn lookup<V>(m: Map<Seq<char>, V>, k: Seq<char>) -> Option<V> {
    if m.contains_key(k) {
        Some(m[k])
    } else {
        None
    }
}

/// The view of a value that may have been found.
pub open spec fn found_view<V: View>(r: Option<&V>) -> Option<V::V> {
    match r {
        Some(v) => Some(v@),
        None => None,
    }
}

/// A map keyed by name whose entries keep the order in which names first came in.
#[derive(Debug)]
pub struct NamedMap<V> {
    entries: Vec<(String, V)>,
}

impl<V: View> View for NamedMap<V> {
    type V = Map<Seq<char>, V::V>;

    open spec fn view(&self) -> Map<Seq<char>, V::V> {
        entries_map(self.entries_view())
    }
}

/// The entry at `i` is the one named `k`.
pub proof fn lemma_position<V>(es: Seq<(String, V)>, i: int, k: Seq<char>)
    requires
        unique_names(es),
        0 <= i < es.len(),
        name_at(es, i) == k,
    ensures
        has_name(es, k),
        position_of(es, k) == i,
{
    assert(has_name(es, k));
    let p = position_of(es, k);
    assert(name_at(es, p) == k);
}

impl<V> NamedMap<V> {
    #[verifier::type_invariant]
    closed spec fn well_formed(&self) -> bool {
        unique_names(self.entries@)
    }
}

impl<V: View> NamedMap<V> {
    /// The entries, in order.
    pub closed spec fn entries_view(&self) -> Seq<(String, V)> {
        self.entries@
    }

    /// An empty map.
    pub fn new() -> (m: Self)
        ensures
            m@ == Map::<Seq<char>, V::V>::empty(),
            m.entries_view().len() == 0,
    {
        let m = NamedMap { entries: Vec::new() };
        assert(m@ =~= Map::<Seq<char>, V::V>::empty());
        m
    }

    /// The entries, in order.
    pub fn entries(&self) -> (r: &Vec<(String, V)>)
        ensures
            r@ == self.entries_view(),
            unique_names(r@),
            self@ == entries_map(r@),
    {
        proof {
            use_type_invariant(self);
        }
        &self.entries
    }

    /// The entries, in order, taking the map apart.
    pub fn into_entries(self) -> (r: Vec<(String, V)>)
        ensures
            r@ == self.entries_view(),
            unique_names(r@),
            self@ == entries_map(r@),
    {
        proof {
            use_type_invariant(&self);
        }
        self.entries
    }

    /// The position of the entry named `name`.
    fn find(&self, name: &String) -> (r: Option<usize>)
        ensures
            r matches Some(i) ==> i < self.entries@.len() && name_at(self.entries@, i as int) == name@,
            r is None ==> !has_name(self.entries@, name@),
    {
        let mut i: usize = 0;
        while i < self.entries.len()
            invariant
                i <= self.entries@.len(),
                forall|j: int| 0 <= j < i ==> #[trigger] name_at(self.entries@, j) != name@,
            decreases self.entries@.len() - i,
        {
            if self.entries[i].0 == *name {
                return Some(i);
            }
            i = i + 1;
        }
        None
    }

    /// The value named `name`, if any.
    pub fn get(&self, name: &String) -> (r: Option<&V>)
        ensures
            found_view(r) == lookup(self@, name@),
    {
        proof {
            use_type_invariant(self);
        }
        match self.find(name) {
            Some(i) => {
                proof {
                    lemma_position(self.entries@, i as int, name@);
                }
                Some(&self.entries[i].1)
            },
            None => None,
        }
    }

    /// Sets the value named `name`; a new name goes to the end.
    pub fn insert(&mut self, name: String, value: V)
        ensures
            final(self)@ == old(self)@.insert(name@, value@),
            !old(self)@.contains_key(name@) ==> final(self).entries_view() == old(
                self,
            ).entries_view().push((name, value)),
    {
        proof {
            use_type_invariant(&*self);
        }
        let ghost old_es = self.entries@;
        let ghost k = name@;
        let ghost v = value@;
        let found = self.find(&name);
        let mut es_exec: Vec<(String, V)> = Vec::new();
        std::mem::swap(&mut es_exec, &mut self.entries);
        match found {
            Some(i) => {
                es_exec.set(i, (name, value));
                let ghost es = es_exec@;
                assert(unique_names(es)) by {
                    assert forall|a: int, b: int|
                        0 <= a < es.len() && 0 <= b < es.len() && a != b implies #[trigger] name_at(
                            es,
                            a,
                        ) != #[trigger] name_at(es, b) by {
                        assert(name_at(es, a) == name_at(old_es, a));
                        assert(name_at(es, b) == name_at(old_es, b));
                    }
                }
                proof {
                    lemma_position(es, i as int, k);
                    assert forall|key: Seq<char>| #[trigger] has_name(es, key) == has_name(old_es, key) by {
                        if has_name(es, key) {
                            let p = choose|p: int| 0 <= p < es.len() && #[trigger] name_at(es, p) == key;
                            assert(name_at(old_es, p) == key);
                        }
                        if has_name(old_es, key) {
                            let p = choose|p: int| 0 <= p < old_es.len() && #[trigger] name_at(old_es, p) == key;
                            assert(name_at(es, p) == key);
                        }
                    }
                    assert forall|key: Seq<char>| has_name(es, key) && key != k implies #[trigger] es[position_of(es, key)].1@ == old_es[position_of(old_es, key)].1@ by {
                        let p = position_of(es, key);
                        assert(name_at(es, p) == key);
                        assert(name_at(old_es, p) == key);
                        lemma_position(old_es, p, key);
                    }
                    assert(entries_map(es) =~= entries_map(old_es).insert(k, v));
                }
            },
            None => {
                es_exec.push((name, value));
                let ghost es = es_exec@;
                let ghost n = old_es.len() as int;
                assert(unique_names(es)) by {
                    assert forall|a: int, b: int|
                        0 <= a < es.len() && 0 <= b < es.len() && a != b implies #[trigger] name_at(
                            es,
                            a,
                        ) != #[trigger] name_at(es, b) by {
                        if a < n && b < n {
                            assert(name_at(es, a) == name_at(old_es, a));
                            assert(name_at(es, b) == name_at(old_es, b));
                        } else if a < n {
                            assert(name_at(es, a) == name_at(old_es, a));
                        } else if b < n {
                            assert(name_at(es, b) == name_at(old_es, b));
                        }
                    }
                }
                proof {
                    lemma_position(es, n, k);
                    assert forall|key: Seq<char>| key != k implies #[trigger] has_name(es, key) == has_name(old_es, key) by {
                        if has_name(es, key) {
                            let p = choose|p: int| 0 <= p < es.len() && #[trigger] name_at(es, p) == key;
                            assert(name_at(old_es, p) == key);
                        }
                        if has_name(old_es, key) {
                            let p = choose|p: int| 0 <= p < old_es.len() && #[trigger] name_at(old_es, p) == key;
                            assert(name_at(es, p) == key);
                        }
                    }
                    assert forall|key: Seq<char>| has_name(es, key) && key != k implies #[trigger] es[position_of(es, key)].1@ == old_es[position_of(old_es, key)].1@ by {
                        let p = position_of(es, key);
                        assert(name_at(es, p) == key);
                        assert(p < n);
                        assert(name_at(old_es, p) == key);
                        lemma_position(old_es, p, key);
                    }
                    assert(entries_map(es) =~= entries_map(old_es).insert(k, v));
                }
            },
        }
        self.entries = es_exec;
    }

    /// Takes out the value named `name`, if any.
    pub fn remove(&mut self, name: &String) -> (r: Option<V>)
        ensures
            final(self)@ == old(self)@.remove(name@),
            r is Some <==> old(self)@.contains_key(name@),
            r matches Some(v) ==> v@ == old(self)@[name@],
    {
        proof {
            use_type_invariant(&*self);
        }
        let ghost old_es = self.entries@;
        let ghost k = name@;
        match self.find(name) {
            Some(i) => {
                proof {
                    lemma_position(old_es, i as int, k);
                }
                let mut es_exec: Vec<(String, V)> = Vec::new();
                std::mem::swap(&mut es_exec, &mut self.entries);
                let (_, value) = es_exec.remove(i);
                let ghost es = es_exec@;
                let ghost n = i as int;
                assert(forall|a: int| 0 <= a < n ==> #[trigger] name_at(es, a) == name_at(old_es, a));
                assert(forall|a: int| n <= a < es.len() ==> #[trigger] name_at(es, a) == name_at(old_es, a + 1));
                assert(unique_names(es)) by {
                    assert forall|a: int, b: int|
                        0 <= a < es.len() && 0 <= b < es.len() && a != b implies #[trigger] name_at(
                            es,
                            a,
                        ) != #[trigger] name_at(es, b) by {
                        let oa = if a < n { a } else { a + 1 };
                        let ob = if b < n { b } else { b + 1 };
                        assert(name_at(es, a) == name_at(old_es, oa));
                        assert(name_at(es, b) == name_at(old_es, ob));
                    }
                }
                proof {
                    assert forall|key: Seq<char>| #[trigger] has_name(es, key) == (has_name(old_es, key) && key != k) by {
                        if has_name(es, key) {
                            let p = choose|p: int| 0 <= p < es.len() && #[trigger] name_at(es, p) == key;
                            let op = if p < n { p } else { p + 1 };
                            assert(name_at(old_es, op) == key);
                            assert(op != n);
                        }
                        if has_name(old_es, key) && key != k {
                            let p = choose|p: int| 0 <= p < old_es.len() && #[trigger] name_at(old_es, p) == key;
                            assert(p != n);
                            let np = if p < n { p } else { p - 1 };
                            assert(name_at(es, np) == key);
                        }
                    }
                    assert forall|key: Seq<char>| has_name(es, key) implies #[trigger] es[position_of(es, key)].1@ == old_es[position_of(old_es, key)].1@ by {
                        let p = position_of(es, key);
                        assert(name_at(es, p) == key);
                        let op = if p < n { p } else { p + 1 };
                        assert(name_at(old_es, op) == key);
                        lemma_position(old_es, op, key);
                    }
                    assert(entries_map(es) =~= entries_map(old_es).remove(k));
                }
                self.entries = es_exec;
                Some(value)
            },
            None => {
                assert(entries_map(old_es) =~= entries_map(old_es).remove(k));
                None
            },
        }
    }

    /// Removes every entry.
    pub fn clear(&mut self)
        ensures
            final(self)@ == Map::<Seq<char>, V::V>::empty(),
    {
        self.entries = Vec::new();
        assert(self@ =~= Map::<Seq<char>, V::V>::empty());
    }
}

} // verus!
