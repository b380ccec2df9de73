//! A map from string keys to values, held as a vector of pairs with
//! distinct keys.
use vstd::prelude::*;

verus! {

/// The map that `pairs` stands for: later pairs overwrite earlier ones.
pub open spec fn pairs_map<V>(pairs: Seq<(String, V)>) -> Map<Seq<char>, V>
    decreases pairs.len(),
{
    if pairs.len() == 0 {
        Map::empty()
    } else {
        pairs_map(pairs.drop_last()).insert(pairs.last().0@, pairs.last().1)
    }
}

pub open spec fn keys_distinct<V>(pairs: Seq<(String, V)>) -> bool {
    forall|i: int, j: int|
        0 <= i < j < pairs.len() ==> (#[trigger] pairs[i]).0@ != (#[trigger] pairs[j]).0@
}

/// Whether some pair of `pairs` has key `k`.
pub open spec fn has_key<V>(pairs: Seq<(String, V)>, k: Seq<char>) -> bool {
    exists|i: int| 0 <= i < pairs.len() && (#[trigger] pairs[i]).0@ == k
}

proof fn lemma_lookup<V>(pairs: Seq<(String, V)>, k: Seq<char>)
    requires
        keys_distinct(pairs),
    ensures
        pairs_map(pairs).contains_key(k) <==> has_key(pairs, k),
        forall|i: int|
            0 <= i < pairs.len() && (#[trigger] pairs[i]).0@ == k ==> pairs_map(pairs)[k]
                == pairs[i].1,
    decreases pairs.len(),
{
    if pairs.len() > 0 {
        let init = pairs.drop_last();
        assert(keys_distinct(init));
        lemma_lookup(init, k);
        if pairs.last().0@ != k {
            if has_key(pairs, k) {
                let i = choose|i: int| 0 <= i < pairs.len() && (#[trigger] pairs[i]).0@ == k;
                assert(init[i] == pairs[i]);
            }
            if has_key(init, k) {
                let i = choose|i: int| 0 <= i < init.len() && (#[trigger] init[i]).0@ == k;
                assert(init[i] == pairs[i]);
            }
            assert forall|i: int|
                0 <= i < pairs.len() && (#[trigger] pairs[i]).0@ == k implies pairs_map(pairs)[k]
                == pairs[i].1 by {
                assert(init[i] == pairs[i]);
            }
        } else {
            assert(pairs[pairs.len() - 1].0@ == k);
        }
    }
}

proof fn lemma_remove<V>(pairs: Seq<(String, V)>, i: int)
    requires
        keys_distinct(pairs),
        0 <= i < pairs.len(),
    ensures
        keys_distinct(pairs.remove(i)),
        pairs_map(pairs.remove(i)) == pairs_map(pairs).remove(pairs[i].0@),
    decreases pairs.len(),
{
    let k = pairs[i].0@;
    let init = pairs.drop_last();
    assert(keys_distinct(init));
    let r = pairs.remove(i);
    assert forall|a: int, b: int| 0 <= a < b < r.len() implies (#[trigger] r[a]).0@ != (
    #[trigger] r[b]).0@ by {
        let a2 = if a < i {
            a
        } else {
            a + 1
        };
        let b2 = if b < i {
            b
        } else {
            b + 1
        };
        assert(r[a] == pairs[a2] && r[b] == pairs[b2]);
    }
    if i == pairs.len() - 1 {
        assert(r =~= init);
        lemma_lookup(init, k);
        assert(!has_key(init, k)) by {
            if has_key(init, k) {
                let j = choose|j: int| 0 <= j < init.len() && (#[trigger] init[j]).0@ == k;
                assert(init[j] == pairs[j]);
            }
        }
        assert(pairs_map(r) =~= pairs_map(pairs).remove(k));
    } else {
        lemma_remove(init, i);
        assert(r.drop_last() =~= init.remove(i));
        assert(r.last() == pairs.last());
        assert(pairs.last().0@ != k);
        assert(pairs_map(r) =~= pairs_map(pairs).remove(k));
    }
}

proof fn lemma_len<V>(pairs: Seq<(String, V)>)
    requires
        keys_distinct(pairs),
    ensures
        pairs_map(pairs).dom().finite(),
        pairs_map(pairs).dom().len() == pairs.len(),
    decreases pairs.len(),
{
    if pairs.len() > 0 {
        let init = pairs.drop_last();
        assert(keys_distinct(init));
        lemma_len(init);
        lemma_lookup(init, pairs.last().0@);
        assert(!has_key(init, pairs.last().0@)) by {
            if has_key(init, pairs.last().0@) {
                let j = choose|j: int|
                    0 <= j < init.len() && (#[trigger] init[j]).0@ == pairs.last().0@;
                assert(init[j] == pairs[j]);
            }
        }
    }
}

/// Pairs of a string key and a value, no key twice.
pub struct Assoc<V> {
    pairs: Vec<(String, V)>,
}

impl<V> View for Assoc<V> {
    type V = Map<Seq<char>, V>;

    closed spec fn view(&self) -> Map<Seq<char>, V> {
        pairs_map(self.pairs@)
    }
}

impl<V> Assoc<V> {
    pub closed spec fn wf(&self) -> bool {
        keys_distinct(self.pairs@)
    }

    /// An empty map.
    pub fn new() -> (r: Assoc<V>)
        ensures
            r.wf(),
            r@ == Map::<Seq<char>, V>::empty(),
    {
        Assoc { pairs: Vec::new() }
    }

    fn find(&self, key: &String) -> (r: Option<usize>)
        requires
            self.wf(),
        ensures
            r matches Some(i) ==> i < self.pairs@.len() && self.pairs@[i as int].0@ == key@,
            r is None ==> !has_key(self.pairs@, key@),
    {
        let mut i: usize = 0;
        while i < self.pairs.len()
            invariant
                i <= self.pairs@.len(),
                forall|j: int| 0 <= j < i ==> (#[trigger] self.pairs@[j]).0@ != key@,
            decreases self.pairs@.len() - i,
        {
            if self.pairs[i].0 == *key {
                return Some(i);
            }
            i = i + 1;
        }
        None
    }

    /// The value under `key`, if there is one.
    pub fn get(&self, key: &str) -> (r: Option<&V>)
        requires
            self.wf(),
        ensures
            r matches Some(v) ==> self@.contains_key(key@) && self@[key@] == *v,
            r is None ==> !self@.contains_key(key@),
    {
        let k = String::from_str(key);
        proof {
            lemma_lookup(self.pairs@, key@);
        }
        match self.find(&k) {
            Some(i) => Some(&self.pairs[i].1),
            None => None,
        }
    }

    /// Takes out the value under `key`, if there is one.
    pub fn remove(&mut self, key: &str) -> (r: Option<V>)
        requires
            old(self).wf(),
        ensures
            final(self).wf(),
            final(self)@ == old(self)@.remove(key@),
            r == old(self)@.get(key@),
    {
        let k = String::from_str(key);
        proof {
            lemma_lookup(self.pairs@, key@);
        }
        match self.find(&k) {
            Some(i) => {
                proof {
                    lemma_remove(self.pairs@, i as int);
                }
                let (_, v) = self.pairs.remove(i);
                Some(v)
            },
            None => {
                assert(self@.remove(key@) =~= self@);
                None
            },
        }
    }

    /// Sets the value under `key`, replacing any earlier one.
    pub fn insert(&mut self, key: String, value: V)
        requires
            old(self).wf(),
        ensures
            final(self).wf(),
            final(self)@ == old(self)@.insert(key@, value),
    {
        let _ = self.remove(key.as_str());
        let ghost before = self.pairs@;
        let ghost k = key@;
        proof {
            lemma_lookup(before, k);
        }
        self.pairs.push((key, value));
        assert(self.pairs@.drop_last() =~= before);
        assert(keys_distinct(self.pairs@)) by {
            assert forall|a: int, b: int| 0 <= a < b < self.pairs@.len() implies (
            #[trigger] self.pairs@[a]).0@ != (#[trigger] self.pairs@[b]).0@ by {
                if b == self.pairs@.len() - 1 {
                    assert(self.pairs@[a] == before[a]);
                } else {
                    assert(self.pairs@[a] == before[a] && self.pairs@[b] == before[b]);
                }
            }
        }
        assert(self@ =~= old(self)@.insert(k, value));
    }

    /// The number of keys.
    pub fn len(&self) -> (r: usize)
        requires
            self.wf(),
        ensures
            r == self@.len(),
    {
        proof {
            lemma_len(self.pairs@);
        }
        self.pairs.len()
    }
}

} // verus!
