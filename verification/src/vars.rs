//! The variable mapping that threads through the whole pipeline: variable
//! names to string values, modelled as a `Map<Seq<char>, Seq<char>>`.
use vstd::prelude::*;

use crate::text::str_eq;

verus! {

/// A mapping from variable names to string values. Both the raw metadata
/// record and the derived variable sets use this shape. Later insertions
/// win on key collision; insertion order is otherwise irrelevant.
pub struct Vars {
    entries: Vec<(String, String)>,
}

/// The mapping described by a sequence of entries, later entries overriding
/// earlier ones.
pub open spec fn map_of(entries: Seq<(String, String)>) -> Map<Seq<char>, Seq<char>>
    decreases entries.len(),
{
    if entries.len() == 0 {
        Map::empty()
    } else {
        map_of(entries.drop_last()).insert(entries.last().0@, entries.last().1@)
    }
}

impl View for Vars {
    type V = Map<Seq<char>, Seq<char>>;

    closed spec fn view(&self) -> Map<Seq<char>, Seq<char>> {
        map_of(self.entries@)
    }
}

proof fn lemma_map_of_last_occurrence(entries: Seq<(String, String)>, i: int)
    requires
        0 <= i < entries.len(),
        forall|j: int| i < j < entries.len() ==> entries[j].0@ != entries[i].0@,
    ensures
        map_of(entries).contains_key(entries[i].0@),
        map_of(entries)[entries[i].0@] == entries[i].1@,
    decreases entries.len(),
{
    if i < entries.len() - 1 {
        assert(forall|j: int|
            i < j < entries.len() - 1 ==> entries.drop_last()[j].0@ != entries.drop_last()[i].0@);
        lemma_map_of_last_occurrence(entries.drop_last(), i);
    }
}

proof fn lemma_map_of_absent(entries: Seq<(String, String)>, key: Seq<char>)
    requires
        forall|j: int| 0 <= j < entries.len() ==> entries[j].0@ != key,
    ensures
        !map_of(entries).contains_key(key),
    decreases entries.len(),
{
    if entries.len() > 0 {
        lemma_map_of_absent(entries.drop_last(), key);
    }
}

proof fn lemma_map_of_concat(a: Seq<(String, String)>, b: Seq<(String, String)>)
    ensures
        map_of(a + b) == map_of(a).union_prefer_right(map_of(b)),
    decreases b.len(),
{
    if b.len() == 0 {
        assert(a + b =~= a);
        assert(map_of(a).union_prefer_right(map_of(b)) =~= map_of(a));
    } else {
        assert((a + b).drop_last() =~= a + b.drop_last());
        lemma_map_of_concat(a, b.drop_last());
        assert(map_of(a).union_prefer_right(map_of(b.drop_last())).insert(
            b.last().0@,
            b.last().1@,
        ) =~= map_of(a).union_prefer_right(map_of(b)));
    }
}

impl Vars {
    /// An empty mapping.
    pub fn new() -> (r: Vars)
        ensures
            r@ == Map::<Seq<char>, Seq<char>>::empty(),
    {
        let r = Vars { entries: Vec::new() };
        proof {
            assert(r.entries@.len() == 0);
        }
        r
    }

    /// Bind `key` to `value`, replacing any earlier binding of `key`.
    pub fn insert(&mut self, key: String, value: String)
        ensures
            final(self)@ == old(self)@.insert(key@, value@),
    {
        let ghost k = key@;
        let ghost v = value@;
        self.entries.push((key, value));
        proof {
            assert(self.entries@.drop_last() =~= old(self).entries@);
            assert(map_of(self.entries@) == map_of(old(self).entries@).insert(k, v));
        }
    }

    /// Look the value of `key` up.
    pub fn get<'a>(&'a self, key: &str) -> (r: Option<&'a String>)
        ensures
            match r {
                Some(value) => self@.contains_key(key@) && value@ == self@[key@],
                None => !self@.contains_key(key@),
            },
    {
        let mut i: usize = self.entries.len();
        while i > 0
            invariant
                i <= self.entries.len(),
                forall|j: int| i <= j < self.entries.len() ==> self.entries@[j].0@ != key@,
            decreases i,
        {
            i -= 1;
            let entry = &self.entries[i];
            if str_eq(entry.0.as_str(), key) {
                proof {
                    lemma_map_of_last_occurrence(self.entries@, i as int);
                }
                return Some(&entry.1);
            }
        }
        proof {
            lemma_map_of_absent(self.entries@, key@);
        }
        None
    }

    /// Overlay every binding of `other` on top of this mapping: on a key
    /// collision the binding from `other` wins.
    pub fn extend(&mut self, other: &Vars)
        ensures
            final(self)@ == old(self)@.union_prefer_right(other@),
    {
        let n = other.entries.len();
        let mut i: usize = 0;
        while i < n
            invariant
                n == other.entries.len(),
                i <= n,
                self.entries@ =~= old(self).entries@ + other.entries@.take(i as int),
            decreases n - i,
        {
            let entry = &other.entries[i];
            self.entries.push((entry.0.clone(), entry.1.clone()));
            i += 1;
            proof {
                assert(self.entries@ =~= old(self).entries@ + other.entries@.take(i as int));
            }
        }
        proof {
            assert(other.entries@.take(n as int) =~= other.entries@);
            lemma_map_of_concat(old(self).entries@, other.entries@);
        }
    }
}

} // verus!
