use vstd::prelude::*;

use crate::address::MapKey;

verus! {

/// The map that a sequence of key/value pairs stands for: a later pair
/// overrides an earlier one with the same key view.
pub open spec fn pairs_to_map<K: View, V>(s: Seq<(K, V)>) -> Map<K::V, V>
    decreases s.len(),
{
    if s.len() == 0 {
        Map::empty()
    } else {
        pairs_to_map(s.drop_last()).insert(s.last().0@, s.last().1)
    }
}

/// No two pairs of the sequence have keys with the same view.
pub open spec fn keys_distinct<K: View, V>(s: Seq<(K, V)>) -> bool {
    forall|i: int, j: int| 0 <= i < j < s.len() ==> #[trigger] s[i].0@ != #[trigger] s[j].0@
}

/// Which keys a sequence of pairs maps, and to what.
pub proof fn lemma_pairs_to_map<K: View, V>(s: Seq<(K, V)>)
    requires
        keys_distinct(s),
    ensures
        forall|k: K::V|
            #[trigger] pairs_to_map(s).contains_key(k) <==> exists|i: int|
                0 <= i < s.len() && (#[trigger] s[i]).0@ == k,
        forall|i: int| 0 <= i < s.len() ==> #[trigger] pairs_to_map(s)[s[i].0@] == s[i].1,
        pairs_to_map(s).dom().finite(),
        pairs_to_map(s).dom().len() == s.len(),
    decreases s.len(),
{
    if s.len() > 0 {
        let t = s.drop_last();
        lemma_pairs_to_map(t);
        assert forall|k: K::V| #[trigger] pairs_to_map(s).contains_key(k) <==> exists|i: int|
            0 <= i < s.len() && (#[trigger] s[i]).0@ == k by {
            if pairs_to_map(s).contains_key(k) && k != s.last().0@ {
                let i = choose|i: int| 0 <= i < t.len() && (#[trigger] t[i]).0@ == k;
                assert(s[i] == t[i]);
            }
            if exists|i: int| 0 <= i < s.len() && (#[trigger] s[i]).0@ == k {
                let i = choose|i: int| 0 <= i < s.len() && (#[trigger] s[i]).0@ == k;
                if i < s.len() - 1 {
                    assert(t[i] == s[i]);
                }
            }
        }
        assert forall|i: int| 0 <= i < s.len() implies #[trigger] pairs_to_map(s)[s[i].0@]
            == s[i].1 by {
            if i < s.len() - 1 {
                assert(t[i] == s[i]);
                assert(s[i].0@ != s[s.len() - 1].0@);
            }
        }
        assert(!pairs_to_map(t).contains_key(s.last().0@)) by {
            if pairs_to_map(t).contains_key(s.last().0@) {
                let i = choose|i: int| 0 <= i < t.len() && (#[trigger] t[i]).0@ == s.last().0@;
                assert(t[i] == s[i]);
            }
        }
    }
}

/// A finite map from keys to values, told apart by the keys' views. The
/// pairs are kept in insertion order, with no two keys of the same view.
#[derive(Debug)]
pub struct KeyedMap<K: View, V> {
    pairs: Vec<(K, V)>,
}

impl<K: View, V> View for KeyedMap<K, V> {
    type V = Map<K::V, V>;

    closed spec fn view(&self) -> Map<K::V, V> {
        pairs_to_map(self.pairs@)
    }
}

impl<K: View, V> KeyedMap<K, V> {
    #[verifier::type_invariant]
    spec fn distinct(self) -> bool {
        keys_distinct(self.pairs@)
    }
}

impl<K: MapKey, V> KeyedMap<K, V> {
    /// The empty map.
    pub fn new() -> (m: Self)
        ensures
            m@ == Map::<K::V, V>::empty(),
    {
        KeyedMap { pairs: Vec::new() }
    }

    /// The number of keys in the map.
    pub fn len(&self) -> (n: usize)
        ensures
            n == self@.dom().len(),
    {
        proof {
            use_type_invariant(self);
            lemma_pairs_to_map(self.pairs@);
        }
        self.pairs.len()
    }

    /// The pairs of the map, in the order their keys were first inserted.
    pub fn pairs(&self) -> (p: &Vec<(K, V)>)
        ensures
            keys_distinct(p@),
            self@ == pairs_to_map(p@),
            forall|k: K::V|
                #[trigger] self@.contains_key(k) <==> exists|i: int|
                    0 <= i < p@.len() && (#[trigger] p@[i]).0@ == k,
            forall|i: int| 0 <= i < p@.len() ==> #[trigger] self@[p@[i].0@] == p@[i].1,
            self@.dom().len() == p@.len(),
    {
        proof {
            use_type_invariant(self);
            lemma_pairs_to_map(self.pairs@);
        }
        &self.pairs
    }

    /// The value that `k` maps to, if any.
    pub fn get(&self, k: &K) -> (r: Option<&V>)
        ensures
            match r {
                Some(v) => self@.contains_key(k@) && *v == self@[k@],
                None => !self@.contains_key(k@),
            },
    {
        proof {
            use_type_invariant(self);
            lemma_pairs_to_map(self.pairs@);
        }
        match Self::position(&self.pairs, k) {
            Some(i) => Some(&self.pairs[i].1),
            None => None,
        }
    }

    /// Whether `k` is a key of the map.
    pub fn contains_key(&self, k: &K) -> (r: bool)
        ensures
            r == self@.contains_key(k@),
    {
        proof {
            use_type_invariant(self);
            lemma_pairs_to_map(self.pairs@);
        }
        Self::position(&self.pairs, k).is_some()
    }

    /// Maps `k` to `v`, replacing what `k` mapped to before.
    pub fn insert(&mut self, k: K, v: V)
        ensures
            final(self)@ == old(self)@.insert(k@, v),
    {
        proof {
            use_type_invariant(&*self);
            lemma_pairs_to_map(self.pairs@);
        }
        let ghost before = self.pairs@;
        let mut pairs: Vec<(K, V)> = Vec::new();
        std::mem::swap(&mut pairs, &mut self.pairs);
        let ghost mut at: int = 0;
        match Self::position(&pairs, &k) {
            Some(i) => {
                pairs.set(i, (k, v));
                proof {
                    at = i as int;
                }
            },
            None => {
                pairs.push((k, v));
                proof {
                    at = before.len() as int;
                }
            },
        }
        proof {
            assert(pairs@[at].0@ == k@);
            assert(forall|j: int| 0 <= j < before.len() && j != at ==> pairs@[j] == before[j]);
            assert(keys_distinct(pairs@));
            lemma_pairs_to_map(pairs@);
            assert(pairs_to_map(pairs@) =~= pairs_to_map(before).insert(k@, v)) by {
                assert forall|key: K::V| #[trigger] pairs_to_map(pairs@).contains_key(key)
                    <==> pairs_to_map(before).insert(k@, v).contains_key(key) by {
                    if pairs_to_map(before).contains_key(key) && key != k@ {
                        let j = choose|j: int| 0 <= j < before.len() && (#[trigger] before[j]).0@
                            == key;
                        assert(pairs@[j] == before[j]);
                    }
                    if pairs_to_map(pairs@).contains_key(key) {
                        let j = choose|j: int| 0 <= j < pairs@.len() && (#[trigger] pairs@[j]).0@
                            == key;
                        if j < before.len() && key != k@ {
                            assert(pairs@[j] == before[j]);
                        }
                    }
                }
                assert forall|key: K::V| #[trigger] pairs_to_map(pairs@).contains_key(key)
                    implies pairs_to_map(pairs@)[key] == pairs_to_map(before).insert(k@, v)[key] by {
                    let j = choose|j: int| 0 <= j < pairs@.len() && (#[trigger] pairs@[j]).0@
                        == key;
                    if key != k@ {
                        assert(pairs@[j] == before[j]);
                    }
                }
            }
        }
        self.pairs = pairs;
    }

    /// The position of the pair in `pairs` whose key has the view of `k`, if any.
    fn position(pairs: &Vec<(K, V)>, k: &K) -> (r: Option<usize>)
        ensures
            match r {
                Some(i) => i < pairs@.len() && pairs@[i as int].0@ == k@,
                None => forall|i: int| 0 <= i < pairs@.len() ==> pairs@[i].0@ != k@,
            },
    {
        let n = pairs.len();
        let mut i: usize = 0;
        while i < n
            invariant
                n == pairs@.len(),
                i <= n,
                forall|j: int| 0 <= j < i ==> pairs@[j].0@ != k@,
            decreases n - i,
        {
            if pairs[i].0.same_key(k) {
                return Some(i);
            }
            i = i + 1;
        }
        None
    }

    /// Removes `k` from the map, with what it mapped to.
    pub fn remove(&mut self, k: &K)
        ensures
            final(self)@ == old(self)@.remove(k@),
    {
        proof {
            use_type_invariant(&*self);
            lemma_pairs_to_map(self.pairs@);
        }
        let ghost before = self.pairs@;
        let mut pairs: Vec<(K, V)> = Vec::new();
        std::mem::swap(&mut pairs, &mut self.pairs);
        match Self::position(&pairs, k) {
            Some(i) => {
                pairs.remove(i);
                proof {
                    assert(keys_distinct(pairs@)) by {
                        assert forall|a: int, b: int| 0 <= a < b < pairs@.len() implies
                            #[trigger] pairs@[a].0@ != #[trigger] pairs@[b].0@ by {
                            let a0 = if a < i { a } else { a + 1 };
                            let b0 = if b < i { b } else { b + 1 };
                            assert(pairs@[a] == before[a0]);
                            assert(pairs@[b] == before[b0]);
                        }
                    }
                    lemma_pairs_to_map(pairs@);
                    assert(pairs_to_map(pairs@) =~= pairs_to_map(before).remove(k@)) by {
                        assert forall|key: K::V| #[trigger] pairs_to_map(pairs@).contains_key(
                            key,
                        ) <==> pairs_to_map(before).remove(k@).contains_key(key) by {
                            if pairs_to_map(before).contains_key(key) && key != k@ {
                                let j = choose|j: int| 0 <= j < before.len() && (#[trigger] before[
                                j]).0@ == key;
                                assert(j != i);
                                let j2 = if j < i { j } else { j - 1 };
                                assert(pairs@[j2] == before[j]);
                            }
                            if pairs_to_map(pairs@).contains_key(key) {
                                let j = choose|j: int| 0 <= j < pairs@.len() && (#[trigger] pairs@[
                                j]).0@ == key;
                                let j0 = if j < i { j } else { j + 1 };
                                assert(pairs@[j] == before[j0]);
                            }
                        }
                        assert forall|key: K::V| #[trigger] pairs_to_map(pairs@).contains_key(key)
                            implies pairs_to_map(pairs@)[key] == pairs_to_map(before).remove(
                            k@,
                        )[key] by {
                            let j = choose|j: int| 0 <= j < pairs@.len() && (#[trigger] pairs@[j]).0@
                                == key;
                            let j0 = if j < i { j } else { j + 1 };
                            assert(pairs@[j] == before[j0]);
                        }
                    }
                }
            },
            None => {
                proof {
                    assert(pairs_to_map(pairs@) =~= pairs_to_map(before).remove(k@));
                }
            },
        }
        self.pairs = pairs;
    }
}

} // verus!
