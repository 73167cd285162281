//! A small map keyed by strings, used for the per-stage records of a run.
use crate::text::{str_eq};
use vstd::prelude::*;

verus! {

/// The map that a list of pairs denotes: the first pair with a given key gives its value.
pub open spec fn pairs_to_map<V>(s: Seq<(String, V)>) -> Map<Seq<char>, V>
    decreases s.len(),
{
    if s.len() == 0 {
        Map::empty()
    } else {
        pairs_to_map(s.drop_first()).insert(s[0].0@, s[0].1)
    }
}

/// `i` is the first position of key `k` in `s`.
pub open spec fn first_key_at<V>(s: Seq<(String, V)>, k: Seq<char>, i: int) -> bool {
    &&& 0 <= i < s.len()
    &&& s[i].0@ == k
    &&& forall|j: int| 0 <= j < i ==> s[j].0@ != k
}

pub proof fn lemma_pairs_dom<V>(s: Seq<(String, V)>, k: Seq<char>)
    ensures
        pairs_to_map(s).contains_key(k) <==> exists|i: int| 0 <= i < s.len() && s[i].0@ == k,
    decreases s.len(),
{
    if s.len() > 0 {
        lemma_pairs_dom(s.drop_first(), k);
        if exists|i: int| 0 <= i < s.len() && s[i].0@ == k {
            let i = choose|i: int| 0 <= i < s.len() && s[i].0@ == k;
            if i > 0 {
                assert(s.drop_first()[i - 1].0@ == k);
            }
        }
        if exists|i: int| 0 <= i < s.drop_first().len() && s.drop_first()[i].0@ == k {
            let i = choose|i: int| 0 <= i < s.drop_first().len() && s.drop_first()[i].0@ == k;
            assert(s[i + 1].0@ == k);
        }
    }
}

pub proof fn lemma_pairs_value<V>(s: Seq<(String, V)>, k: Seq<char>, i: int)
    requires
        first_key_at(s, k, i),
    ensures
        pairs_to_map(s).contains_key(k),
        pairs_to_map(s)[k] == s[i].1,
    decreases s.len(),
{
    if i > 0 {
        assert forall|j: int| 0 <= j < i - 1 implies s.drop_first()[j].0@ != k by {
            assert(s.drop_first()[j] == s[j + 1]);
        }
        lemma_pairs_value(s.drop_first(), k, i - 1);
    }
}

/// A string-keyed map; its view is a `Map` from key text to value.
#[derive(Debug, Clone)]
pub struct StrMap<V> {
    items: Vec<(String, V)>,
}

impl<V> View for StrMap<V> {
    type V = Map<Seq<char>, V>;

    closed spec fn view(&self) -> Map<Seq<char>, V> {
        pairs_to_map(self.items@)
    }
}

impl<V> StrMap<V> {
    /// The pairs in insertion order.
    pub closed spec fn pairs(&self) -> Seq<(String, V)> {
        self.items@
    }

    pub fn new() -> (r: StrMap<V>)
        ensures
            r@ == Map::<Seq<char>, V>::empty(),
    {
        StrMap { items: Vec::new() }
    }

    fn find(&self, k: &str) -> (r: Option<usize>)
        ensures
            r matches Some(i) ==> first_key_at(self.items@, k@, i as int),
            r is None ==> forall|j: int| 0 <= j < self.items@.len() ==> self.items@[j].0@ != k@,
    {
        let mut i: usize = 0;
        while i < self.items.len()
            invariant
                i <= self.items@.len(),
                forall|j: int| 0 <= j < i ==> self.items@[j].0@ != k@,
            decreases self.items.len() - i,
        {
            if str_eq(self.items[i].0.as_str(), k) {
                return Some(i);
            }
            i = i + 1;
        }
        None
    }

    /// The value stored under `k`, if any.
    pub fn get(&self, k: &str) -> (r: Option<&V>)
        ensures
            match r {
                Some(v) => self@.contains_key(k@) && self@[k@] == *v,
                None => !self@.contains_key(k@),
            },
    {
        match self.find(k) {
            Some(i) => {
                proof {
                    lemma_pairs_value(self.items@, k@, i as int);
                }
                Some(&self.items[i].1)
            },
            None => {
                proof {
                    lemma_pairs_dom(self.items@, k@);
                }
                None
            },
        }
    }

    /// Stores `v` under `k`, replacing any earlier value.
    pub fn insert(&mut self, k: String, v: V)
        ensures
            final(self)@ == old(self)@.insert(k@, v),
    {
        let ghost old_items = self.items@;
        let ghost kv = k@;
        match self.find(k.as_str()) {
            Some(i) => {
                self.items.set(i, (k, v));
                proof {
                    let s = self.items@;
                    assert(s == old_items.update(i as int, s[i as int]));
                    assert forall|q: Seq<char>| #![auto]
                        pairs_to_map(s).contains_key(q) == pairs_to_map(old_items).insert(kv, v).contains_key(q)
                        by {
                        lemma_pairs_dom(s, q);
                        lemma_pairs_dom(old_items, q);
                        if q == kv {
                            assert(s[i as int].0@ == q);
                        } else {
                            if exists|j: int| 0 <= j < old_items.len() && old_items[j].0@ == q {
                                let j = choose|j: int| 0 <= j < old_items.len() && old_items[j].0@ == q;
                                assert(s[j].0@ == q);
                            }
                        }
                    }
                    assert forall|q: Seq<char>| #![auto] pairs_to_map(s).contains_key(q) implies
                        pairs_to_map(s)[q] == pairs_to_map(old_items).insert(kv, v)[q] by {
                        if q == kv {
                            assert(first_key_at(s, q, i as int));
                            lemma_pairs_value(s, q, i as int);
                        } else {
                            lemma_pairs_dom(s, q);
                            let j0 = choose|j: int| 0 <= j < s.len() && s[j].0@ == q;
                            let j = first_index(s, q, j0);
                            assert(j != i);
                            assert forall|l: int| 0 <= l < j implies old_items[l].0@ != q by {
                                if l != i {
                                    assert(old_items[l] == s[l]);
                                }
                            }
                            assert(old_items[j] == s[j]);
                            assert(first_key_at(old_items, q, j));
                            lemma_pairs_value(s, q, j);
                            lemma_pairs_value(old_items, q, j);
                        }
                    }
                    assert(pairs_to_map(s) =~= pairs_to_map(old_items).insert(kv, v));
                }
            },
            None => {
                self.items.push((k, v));
                proof {
                    let s = self.items@;
                    assert forall|q: Seq<char>| #![auto]
                        pairs_to_map(s).contains_key(q) == pairs_to_map(old_items).insert(kv, v).contains_key(q)
                        by {
                        lemma_pairs_dom(s, q);
                        lemma_pairs_dom(old_items, q);
                        if q != kv {
                            if exists|j: int| 0 <= j < s.len() && s[j].0@ == q {
                                let j = choose|j: int| 0 <= j < s.len() && s[j].0@ == q;
                                assert(j < old_items.len());
                                assert(old_items[j].0@ == q);
                            }
                            if exists|j: int| 0 <= j < old_items.len() && old_items[j].0@ == q {
                                let j = choose|j: int| 0 <= j < old_items.len() && old_items[j].0@ == q;
                                assert(s[j].0@ == q);
                            }
                        } else {
                            assert(s[s.len() - 1].0@ == q);
                        }
                    }
                    assert forall|q: Seq<char>| #![auto] pairs_to_map(s).contains_key(q) implies
                        pairs_to_map(s)[q] == pairs_to_map(old_items).insert(kv, v)[q] by {
                        if q == kv {
                            assert(first_key_at(s, q, old_items.len() as int));
                            lemma_pairs_value(s, q, old_items.len() as int);
                        } else {
                            lemma_pairs_dom(s, q);
                            let j0 = choose|j: int| 0 <= j < s.len() && s[j].0@ == q;
                            let j = first_index(s, q, j0);
                            assert(j < old_items.len());
                            assert forall|l: int| 0 <= l < j implies old_items[l].0@ != q by {
                                assert(old_items[l] == s[l]);
                            }
                            assert(old_items[j] == s[j]);
                            assert(first_key_at(old_items, q, j));
                            lemma_pairs_value(s, q, j);
                            lemma_pairs_value(old_items, q, j);
                        }
                    }
                    assert(pairs_to_map(s) =~= pairs_to_map(old_items).insert(kv, v));
                }
            },
        }
    }

    /// Removes every entry.
    pub fn clear(&mut self)
        ensures
            final(self)@ == Map::<Seq<char>, V>::empty(),
    {
        self.items = Vec::new();
    }

    /// The pairs of the map, each key once, in insertion order.
    pub fn into_pairs(self) -> (r: Vec<(String, V)>)
        ensures
            pairs_to_map(r@) == self@,
    {
        self.items
    }

    /// The number of pairs.
    pub fn len(&self) -> (r: usize)
        ensures
            r == self.pairs().len(),
    {
        self.items.len()
    }
}

/// The first position of key `k`, given any position that holds it.
pub proof fn first_index<V>(s: Seq<(String, V)>, k: Seq<char>, j: int) -> (r: int)
    requires
        0 <= j < s.len(),
        s[j].0@ == k,
    ensures
        first_key_at(s, k, r),
        r <= j,
    decreases j,
{
    if exists|i: int| 0 <= i < j && s[i].0@ == k {
        let i = choose|i: int| 0 <= i < j && s[i].0@ == k;
        first_index(s, k, i)
    } else {
        j
    }
}

} // verus!
