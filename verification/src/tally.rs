//! A map from text to values that remembers in which order its keys came.

use vstd::hash_map::StringHashMap;
use vstd::prelude::*;

verus! {

/// A finite map keyed by text, with its keys listed in the order in which
/// they were first set.
///
/// The values live in a hash map; the list of keys makes the map's domain
/// enumerable, and thereby finite.
#[verifier::reject_recursive_types(V)]
pub struct Tally<V> {
    values: StringHashMap<V>,
    keys: Vec<String>,
}

/// The names list every key of `keys` once.
pub open spec fn enumerates(names: Seq<String>, keys: Set<Seq<char>>) -> bool {
    &&& forall|i: int, j: int| 0 <= i < j < names.len() ==> names[i]@ != names[j]@
    &&& forall|i: int| 0 <= i < names.len() ==> keys.contains(#[trigger] names[i]@)
    &&& forall|key: Seq<char>|
        keys.contains(key) ==> exists|i: int| 0 <= i < names.len() && #[trigger] names[i]@ == key
}

impl<V> View for Tally<V> {
    type V = Map<Seq<char>, V>;

    closed spec fn view(&self) -> Self::V {
        self.values@
    }
}

impl<V> Tally<V> {
    /// The keys in the order in which they were first set.
    pub closed spec fn key_views(&self) -> Seq<Seq<char>> {
        self.keys@.map_values(|key: String| key@)
    }

    /// The list of keys names every key of the map once.
    pub open spec fn wf(&self) -> bool {
        &&& self.key_views().no_duplicates()
        &&& self.key_views().to_set() == self@.dom()
    }

    /// A well-formed tally has as many keys as its list is long, and no
    /// more than finitely many.
    pub proof fn lemma_finite(&self)
        requires
            self.wf(),
        ensures
            self@.dom().finite(),
            self@.dom().len() == self.key_views().len(),
    {
        self.key_views().unique_seq_to_set();
    }

    /// The empty tally.
    pub fn new() -> (tally: Self)
        ensures
            tally.wf(),
            tally@ == Map::<Seq<char>, V>::empty(),
            tally.key_views() == Seq::<Seq<char>>::empty(),
    {
        let tally = Tally { values: StringHashMap::new(), keys: Vec::new() };
        assert(tally.key_views().to_set() =~= tally@.dom());
        tally
    }

    /// The value under `key`, if there is one.
    pub fn get(&self, key: &str) -> (value: Option<&V>)
        ensures
            match value {
                Some(v) => self@.contains_key(key@) && *v == self@[key@],
                None => !self@.contains_key(key@),
            },
    {
        self.values.get(key)
    }

    /// Puts `value` under `key`. A key that is new to the tally goes to
    /// the end of the list of keys.
    pub fn set(&mut self, key: &String, value: V)
        requires
            old(self).wf(),
        ensures
            final(self).wf(),
            final(self)@ == old(self)@.insert(key@, value),
            final(self).key_views() == if old(self)@.contains_key(key@) {
                old(self).key_views()
            } else {
                old(self).key_views().push(key@)
            },
    {
        let ghost listed = self.key_views();
        if !self.values.contains_key(key.as_str()) {
            self.keys.push(key.clone());
            proof {
                assert(self.key_views() =~= listed.push(key@));
                assert(!listed.contains(key@));
                listed.lemma_push_to_set_commute(key@);
            }
        }
        self.values.insert(key.clone(), value);
        proof {
            assert(self.key_views().to_set() =~= self@.dom());
        }
    }

    /// The number of keys.
    pub fn len(&self) -> (count: usize)
        requires
            self.wf(),
        ensures
            count == self@.dom().len(),
            count == self.key_views().len(),
    {
        proof {
            self.lemma_finite();
        }
        self.keys.len()
    }

    /// The keys in the order in which they were first set.
    pub fn keys(&self) -> (keys: &Vec<String>)
        requires
            self.wf(),
        ensures
            enumerates(keys@, self@.dom()),
            keys@.len() == self.key_views().len(),
            forall|i: int| 0 <= i < keys@.len() ==> keys@[i]@ == self.key_views()[i],
    {
        proof {
            let listed = self.key_views();
            assert forall|i: int, j: int| 0 <= i < j < self.keys@.len() implies self.keys@[i]@
                != self.keys@[j]@ by {
                assert(listed[i] != listed[j]);
            }
            assert forall|i: int| 0 <= i < self.keys@.len() implies listed.to_set().contains(
                #[trigger] self.keys@[i]@,
            ) by {
                assert(listed[i] == self.keys@[i]@);
            }
            assert forall|key: Seq<char>| listed.to_set().contains(key) implies exists|i: int|
                0 <= i < self.keys@.len() && #[trigger] self.keys@[i]@ == key by {
            }
        }
        &self.keys
    }
}

} // verus!
