//! A map keyed by text, kept as a vector of distinct keys.
//!
//! Sessions, the page cache and the per-domain statistics are all such maps.

use vstd::prelude::*;

verus! {

/// The map that a list of (key, value) entries describes; a later entry for
/// a key overrides an earlier one.
pub open spec fn map_of<V>(s: Seq<(String, V)>) -> Map<Seq<char>, V>
    decreases s.len(),
{
    if s.len() == 0 {
        Map::empty()
    } else {
        map_of(s.drop_last()).insert(s.last().0@, s.last().1)
    }
}

/// No key occurs twice.
pub open spec fn keys_distinct<V>(s: Seq<(String, V)>) -> bool {
    forall|i: int, j: int| 0 <= i < s.len() && 0 <= j < s.len() && i != j ==> s[i].0@ != s[j].0@
}

/// A map from texts to values.
pub struct StringMap<V> {
    entries: Vec<(String, V)>,
}

impl<V> View for StringMap<V> {
    type V = Map<Seq<char>, V>;

    closed spec fn view(&self) -> Map<Seq<char>, V> {
        map_of(self.entries@)
    }
}

proof fn lemma_map_of_dom<V>(s: Seq<(String, V)>, k: Seq<char>)
    ensures
        map_of(s).dom().contains(k) <==> exists|i: int| 0 <= i < s.len() && s[i].0@ == k,
    decreases s.len(),
{
    if s.len() > 0 {
        lemma_map_of_dom(s.drop_last(), k);
        if map_of(s.drop_last()).dom().contains(k) {
            let i = choose|i: int| 0 <= i < s.drop_last().len() && s.drop_last()[i].0@ == k;
            assert(s[i].0@ == k);
        }
        if exists|i: int| 0 <= i < s.len() && s[i].0@ == k {
            let i = choose|i: int| 0 <= i < s.len() && s[i].0@ == k;
            if i < s.len() - 1 {
                assert(s.drop_last()[i].0@ == k);
            }
        }
    }
}

proof fn lemma_map_of_value<V>(s: Seq<(String, V)>, i: int)
    requires
        keys_distinct(s),
        0 <= i < s.len(),
    ensures
        map_of(s).dom().contains(s[i].0@),
        map_of(s)[s[i].0@] == s[i].1,
    decreases s.len(),
{
    if i < s.len() - 1 {
        assert(keys_distinct(s.drop_last()));
        assert(s.drop_last()[i] == s[i]);
        lemma_map_of_value(s.drop_last(), i);
    }
}

proof fn lemma_map_of_remove<V>(s: Seq<(String, V)>, j: int)
    requires
        keys_distinct(s),
        0 <= j < s.len(),
    ensures
        map_of(s.remove(j)) == map_of(s).remove(s[j].0@),
        keys_distinct(s.remove(j)),
    decreases s.len(),
{
    let k = s[j].0@;
    if j == s.len() - 1 {
        assert(s.remove(j) =~= s.drop_last());
        lemma_map_of_dom(s.drop_last(), k);
        assert(!map_of(s.drop_last()).dom().contains(k));
        assert(map_of(s.drop_last()) =~= map_of(s).remove(k));
    } else {
        let t = s.drop_last();
        assert(keys_distinct(t));
        lemma_map_of_remove(t, j);
        assert(s.remove(j) =~= t.remove(j).push(s.last()));
        assert(s.remove(j).drop_last() =~= t.remove(j));
        assert(s.last().0@ != k);
        assert(map_of(s.remove(j)) =~= map_of(s).remove(k));
    }
}

proof fn lemma_push_distinct<V>(s: Seq<(String, V)>, e: (String, V))
    requires
        keys_distinct(s),
        !map_of(s).dom().contains(e.0@),
    ensures
        keys_distinct(s.push(e)),
        map_of(s.push(e)) == map_of(s).insert(e.0@, e.1),
{
    lemma_map_of_dom(s, e.0@);
    assert(s.push(e).drop_last() =~= s);
}

impl<V> StringMap<V> {
    /// No key occurs twice among the entries.
    pub closed spec fn wf(&self) -> bool {
        keys_distinct(self.entries@)
    }

    /// An empty map.
    pub fn new() -> (r: Self)
        ensures
            r.wf(),
            r@ == Map::<Seq<char>, V>::empty(),
    {
        StringMap { entries: Vec::new() }
    }

    /// The number of keys.
    pub fn len(&self) -> (r: usize)
        requires
            self.wf(),
        ensures
            r == self@.dom().len(),
    {
        proof {
            self.lemma_len();
        }
        self.entries.len()
    }

    proof fn lemma_len(&self)
        requires
            self.wf(),
        ensures
            self@.dom().len() == self.entries@.len(),
            self@.dom().finite(),
    {
        lemma_map_of_len(self.entries@);
    }

    /// The position of `key` among the entries.
    fn index_of(&self, key: &str) -> (r: Option<usize>)
        requires
            self.wf(),
        ensures
            r matches Some(i) ==> i < self.entries@.len() && self.entries@[i as int].0@ == key@,
            r is None ==> !self@.dom().contains(key@),
    {
        let mut i: usize = 0;
        while i < self.entries.len()
            invariant
                0 <= i <= self.entries@.len(),
                forall|j: int| 0 <= j < i ==> self.entries@[j].0@ != key@,
            decreases self.entries@.len() - i,
        {
            if str_eq(self.entries[i].0.as_str(), key) {
                return Some(i);
            }
            i = i + 1;
        }
        proof {
            lemma_map_of_dom(self.entries@, key@);
        }
        None
    }

    /// Whether `key` is present.
    pub fn contains_key(&self, key: &str) -> (r: bool)
        requires
            self.wf(),
        ensures
            r == self@.dom().contains(key@),
    {
        match self.index_of(key) {
            Some(i) => {
                proof {
                    lemma_map_of_value(self.entries@, i as int);
                }
                true
            },
            None => false,
        }
    }

    /// The value stored for `key`.
    pub fn get(&self, key: &str) -> (r: Option<&V>)
        requires
            self.wf(),
        ensures
            r matches Some(v) ==> self@.dom().contains(key@) && self@[key@] == *v,
            r is None ==> !self@.dom().contains(key@),
    {
        match self.index_of(key) {
            Some(i) => {
                proof {
                    lemma_map_of_value(self.entries@, i as int);
                }
                Some(&self.entries[i].1)
            },
            None => None,
        }
    }

    /// Takes out the value stored for `key`.
    pub fn remove(&mut self, key: &str) -> (r: Option<V>)
        requires
            old(self).wf(),
        ensures
            final(self).wf(),
            final(self)@ == old(self)@.remove(key@),
            r matches Some(v) ==> old(self)@.dom().contains(key@) && old(self)@[key@] == v,
            r is None ==> !old(self)@.dom().contains(key@),
    {
        match self.index_of(key) {
            Some(i) => {
                proof {
                    lemma_map_of_value(self.entries@, i as int);
                    lemma_map_of_remove(self.entries@, i as int);
                }
                let (_, v) = self.entries.remove(i);
                Some(v)
            },
            None => {
                assert(self@.remove(key@) =~= self@);
                None
            },
        }
    }

    /// Stores `value` for `key`, replacing any earlier value.
    pub fn insert(&mut self, key: String, value: V)
        requires
            old(self).wf(),
        ensures
            final(self).wf(),
            final(self)@ == old(self)@.insert(key@, value),
    {
        let _ = self.remove(key.as_str());
        let ghost removed = self@;
        proof {
            lemma_push_distinct(self.entries@, (key, value));
        }
        self.entries.push((key, value));
        assert(removed.insert(key@, value) =~= old(self)@.insert(key@, value));
    }
}

proof fn lemma_map_of_len<V>(s: Seq<(String, V)>)
    requires
        keys_distinct(s),
    ensures
        map_of(s).dom().finite(),
        map_of(s).dom().len() == s.len(),
    decreases s.len(),
{
    if s.len() > 0 {
        let t = s.drop_last();
        assert(keys_distinct(t));
        lemma_map_of_len(t);
        lemma_map_of_dom(t, s.last().0@);
        assert(!map_of(t).dom().contains(s.last().0@));
    }
}

/// A lookup gives back what the last insert for its key stored, and an
/// insert leaves every other key as it was. `StringMap::insert`,
/// `StringMap::get` and `StringMap::contains_key` are stated over these
/// views.
pub proof fn law_insert_then_lookup<V>(before: Map<Seq<char>, V>, key: Seq<char>, value: V, other: Seq<char>)
    ensures
        before.insert(key, value).dom().contains(key),
        before.insert(key, value)[key] == value,
        other != key ==> (before.insert(key, value).dom().contains(other) <==> before.dom().contains(other)),
        other != key && before.dom().contains(other) ==> before.insert(key, value)[other] == before[other],
{
}

/// Whether two texts are equal.
pub fn str_eq(a: &str, b: &str) -> (r: bool)
    ensures
        r == (a@ == b@),
{
    let x = crate::text::chars_of(a);
    let y = crate::text::chars_of(b);
    crate::text::chars_eq(&x, &y)
}

} // verus!
