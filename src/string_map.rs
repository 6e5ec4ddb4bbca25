//! A map keyed by strings that keeps its keys in the order they were first inserted.
use vstd::prelude::*;
use crate::text::same_text;

verus! {

/// True when no key occurs twice among `s`.
pub open spec fn keys_unique<V>(s: Seq<(Seq<char>, V)>) -> bool {
    forall|i: int, j: int| 0 <= i < j < s.len() ==> s[i].0 != s[j].0
}

/// The map that a list of entries denotes; a later entry overrides an earlier one.
pub open spec fn map_of<V>(s: Seq<(Seq<char>, V)>) -> Map<Seq<char>, V>
    decreases s.len(),
{
    if s.len() == 0 {
        Map::empty()
    } else {
        map_of(s.drop_last()).insert(s.last().0, s.last().1)
    }
}

pub proof fn lemma_map_of_contains<V>(s: Seq<(Seq<char>, V)>, k: Seq<char>)
    ensures
        map_of(s).contains_key(k) <==> exists|i: int| 0 <= i < s.len() && s[i].0 == k,
    decreases s.len(),
{
    if s.len() > 0 {
        lemma_map_of_contains(s.drop_last(), k);
        if map_of(s).contains_key(k) && k != s.last().0 {
            let i = choose|i: int| 0 <= i < s.drop_last().len() && s.drop_last()[i].0 == k;
            assert(s[i].0 == k);
        }
        if exists|i: int| 0 <= i < s.len() && s[i].0 == k {
            let i = choose|i: int| 0 <= i < s.len() && s[i].0 == k;
            if i < s.len() - 1 {
                assert(s.drop_last()[i].0 == k);
            }
        }
    }
}

pub proof fn lemma_map_of_index<V>(s: Seq<(Seq<char>, V)>, i: int)
    requires
        keys_unique(s),
        0 <= i < s.len(),
    ensures
        map_of(s).contains_key(s[i].0),
        map_of(s)[s[i].0] == s[i].1,
    decreases s.len(),
{
    if i < s.len() - 1 {
        lemma_map_of_index(s.drop_last(), i);
        assert(s.drop_last()[i] == s[i]);
    }
}

pub proof fn lemma_map_of_update<V>(s: Seq<(Seq<char>, V)>, i: int, v: V)
    requires
        keys_unique(s),
        0 <= i < s.len(),
    ensures
        map_of(s.update(i, (s[i].0, v))) == map_of(s).insert(s[i].0, v),
    decreases s.len(),
{
    let t = s.update(i, (s[i].0, v));
    if i == s.len() - 1 {
        assert(t.drop_last() =~= s.drop_last());
        assert(map_of(t) =~= map_of(s).insert(s[i].0, v));
    } else {
        assert(t.drop_last() =~= s.drop_last().update(i, (s[i].0, v)));
        lemma_map_of_update(s.drop_last(), i, v);
        assert(s.last().0 != s[i].0);
        assert(map_of(t) =~= map_of(s).insert(s[i].0, v));
    }
}

/// Entries under string keys, each key at most once, in order of first insertion.
pub struct StringMap<V: View> {
    entries: Vec<(String, V)>,
}

impl<V: View> StringMap<V> {
    /// The entries, as (key, value) views, in order of first insertion.
    pub closed spec fn entries(&self) -> Seq<(Seq<char>, V::V)> {
        Seq::new(self.entries@.len(), |i: int| (self.entries@[i].0@, self.entries@[i].1@))
    }

    /// Well-formed: no key occurs twice.
    pub open spec fn wf(&self) -> bool {
        keys_unique(self.entries())
    }

    /// The map the entries denote.
    pub open spec fn mapping(&self) -> Map<Seq<char>, V::V> {
        map_of(self.entries())
    }

    pub fn new() -> (r: Self)
        ensures
            r.entries() == Seq::<(Seq<char>, V::V)>::empty(),
            r.wf(),
    {
        let r = StringMap { entries: Vec::new() };
        assert(r.entries() =~= Seq::<(Seq<char>, V::V)>::empty());
        r
    }

    fn index_of(&self, key: &str) -> (r: Option<usize>)
        ensures
            r is Some ==> r->0 < self.entries().len() && self.entries()[r->0 as int].0 == key@,
            r is None ==> forall|i: int| 0 <= i < self.entries().len() ==> self.entries()[i].0 != key@,
    {
        let mut i: usize = 0;
        while i < self.entries.len()
            invariant
                i <= self.entries@.len(),
                forall|j: int| 0 <= j < i ==> self.entries()[j].0 != key@,
            decreases self.entries@.len() - i,
        {
            if same_text(self.entries[i].0.as_str(), key) {
                return Some(i);
            }
            i = i + 1;
        }
        None
    }

    /// Sets `key` to `value`; an existing key keeps its place, a new one goes last.
    pub fn insert(&mut self, key: String, value: V)
        requires
            old(self).wf(),
        ensures
            map_of(final(self).entries()) == map_of(old(self).entries()).insert(key@, value@),
            final(self).wf(),
            old(self).entries().len() <= final(self).entries().len(),
            forall|i: int| 0 <= i < old(self).entries().len() ==> #[trigger] final(self).entries()[i].0
                == old(self).entries()[i].0,
            (exists|i: int| 0 <= i < old(self).entries().len() && old(self).entries()[i].0 == key@)
                ==> final(self).entries().len() == old(self).entries().len(),
            (forall|i: int| 0 <= i < old(self).entries().len() ==> old(self).entries()[i].0 != key@)
                ==> final(self).entries() == old(self).entries().push((key@, value@)),
    {
        let ghost old_entries = self.entries();
        match self.index_of(key.as_str()) {
            Some(i) => {
                self.entries.set(i, (key, value));
                proof {
                    assert(self.entries() =~= old_entries.update(i as int, (old_entries[i as int].0, value@)));
                    lemma_map_of_update(old_entries, i as int, value@);
                }
            },
            None => {
                self.entries.push((key, value));
                assert(self.entries() =~= old_entries.push((key@, value@)));
                assert(self.entries().drop_last() =~= old_entries);
            },
        }
    }

    /// The value under `key`, if any.
    pub fn get(&self, key: &str) -> (r: Option<&V>)
        requires
            self.wf(),
        ensures
            r is Some <==> map_of(self.entries()).contains_key(key@),
            r is Some ==> r->0@ == map_of(self.entries())[key@],
    {
        proof {
            lemma_map_of_contains(self.entries(), key@);
        }
        match self.index_of(key) {
            Some(i) => {
                proof {
                    lemma_map_of_index(self.entries(), i as int);
                }
                Some(&self.entries[i].1)
            },
            None => None,
        }
    }

    pub fn contains_key(&self, key: &str) -> (r: bool)
        ensures
            r == map_of(self.entries()).contains_key(key@),
    {
        proof {
            lemma_map_of_contains(self.entries(), key@);
        }
        self.index_of(key).is_some()
    }

    /// The number of entries.
    pub fn len(&self) -> (r: usize)
        ensures
            r == self.entries().len(),
    {
        self.entries.len()
    }

    /// The key and value of the entry at `i`, in order of first insertion.
    pub fn entry_at(&self, i: usize) -> (r: (&String, &V))
        requires
            i < self.entries().len(),
        ensures
            r.0@ == self.entries()[i as int].0,
            r.1@ == self.entries()[i as int].1,
    {
        (&self.entries[i].0, &self.entries[i].1)
    }
}

} // verus!
