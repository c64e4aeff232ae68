use vstd::prelude::*;

verus! {

/// The mathematical contents of an association list: each pair binds its
/// key's characters to its value, later pairs taking precedence.
pub open spec fn assoc_map<V>(s: Seq<(String, V)>) -> Map<Seq<char>, V>
    decreases s.len(),
{
    if s.len() == 0 {
        Map::empty()
    } else {
        assoc_map(s.drop_last()).insert(s.last().0@, s.last().1)
    }
}

/// An association list is well formed when no two pairs bind the same key.
pub open spec fn distinct_keys<V>(s: Seq<(String, V)>) -> bool {
    forall|i: int, j: int| 0 <= i < j < s.len() ==> s[i].0@ != s[j].0@
}

/// A key is in the contents exactly when some pair binds it.
pub proof fn lemma_assoc_contains<V>(s: Seq<(String, V)>, key: Seq<char>)
    ensures
        assoc_map(s).contains_key(key) <==> exists|i: int| 0 <= i < s.len() && s[i].0@ == key,
    decreases s.len(),
{
    if s.len() > 0 {
        lemma_assoc_contains(s.drop_last(), key);
        if s.last().0@ != key && assoc_map(s).contains_key(key) {
            let i = choose|i: int| 0 <= i < s.len() - 1 && s.drop_last()[i].0@ == key;
            assert(s[i].0@ == key);
        }
        if exists|i: int| 0 <= i < s.len() && s[i].0@ == key {
            let i = choose|i: int| 0 <= i < s.len() && s[i].0@ == key;
            if i < s.len() - 1 {
                assert(s.drop_last()[i].0@ == key);
            }
        }
    }
}

/// With distinct keys, the value bound to a pair's key is that pair's value.
pub proof fn lemma_assoc_value<V>(s: Seq<(String, V)>, j: int)
    requires
        distinct_keys(s),
        0 <= j < s.len(),
    ensures
        assoc_map(s).contains_key(s[j].0@),
        assoc_map(s)[s[j].0@] == s[j].1,
    decreases s.len(),
{
    lemma_assoc_contains(s, s[j].0@);
    if j < s.len() - 1 {
        assert(s.last().0@ != s[j].0@);
        assert(s.drop_last()[j] == s[j]);
        lemma_assoc_value(s.drop_last(), j);
    }
}

/// Replacing the value of the pair that binds a key updates just that
/// key's binding in the contents.
pub proof fn lemma_assoc_update<V>(s: Seq<(String, V)>, j: int, p: (String, V))
    requires
        distinct_keys(s),
        0 <= j < s.len(),
        p.0@ == s[j].0@,
    ensures
        distinct_keys(s.update(j, p)),
        assoc_map(s.update(j, p)) == assoc_map(s).insert(p.0@, p.1),
{
    let t = s.update(j, p);
    assert forall|i1: int, i2: int| 0 <= i1 < i2 < t.len() implies t[i1].0@ != t[i2].0@ by {
        assert(s[i1].0@ != s[i2].0@);
    }
    assert forall|k: Seq<char>|
        assoc_map(t).contains_key(k) <==> assoc_map(s).insert(p.0@, p.1).contains_key(k) by {
        lemma_assoc_contains(t, k);
        lemma_assoc_contains(s, k);
        if exists|i: int| 0 <= i < s.len() && s[i].0@ == k {
            let i = choose|i: int| 0 <= i < s.len() && s[i].0@ == k;
            assert(t[i].0@ == k);
        }
        if exists|i: int| 0 <= i < t.len() && t[i].0@ == k {
            let i = choose|i: int| 0 <= i < t.len() && t[i].0@ == k;
            assert(s[i].0@ == k || k == p.0@);
        }
    }
    assert forall|k: Seq<char>| #[trigger] assoc_map(t).contains_key(k) implies assoc_map(t)[k]
        == assoc_map(s).insert(p.0@, p.1)[k] by {
        lemma_assoc_contains(t, k);
        let i = choose|i: int| 0 <= i < t.len() && t[i].0@ == k;
        lemma_assoc_value(t, i);
        if k == p.0@ {
            assert(t[j] == p);
            assert(i == j);
        } else {
            assert(s[i] == t[i]);
            lemma_assoc_value(s, i);
        }
    }
    assert(assoc_map(t) =~= assoc_map(s).insert(p.0@, p.1));
}

/// An ordinary, exclusively owned key-value frame: one layer of a chain.
///
/// Keys are strings; values are arbitrary. The pairs bind distinct keys,
/// and the frame's view is the finite map those pairs describe.
#[derive(Clone, Debug, PartialEq)]
pub struct Frame<V> {
    pairs: Vec<(String, V)>,
}

impl<V> View for Frame<V> {
    type V = Map<Seq<char>, V>;

    closed spec fn view(&self) -> Map<Seq<char>, V> {
        assoc_map(self.pairs@)
    }
}

impl<V> Frame<V> {
    /// No two pairs bind the same key.
    pub closed spec fn wf(&self) -> bool {
        distinct_keys(self.pairs@)
    }

    /// An empty frame.
    pub fn new() -> (r: Self)
        ensures
            r@ == Map::<Seq<char>, V>::empty(),
            r.wf(),
    {
        Frame { pairs: Vec::new() }
    }

    /// The position of the pair binding `key`, if any.
    fn position_of(&self, key: &String) -> (r: Option<usize>)
        ensures
            match r {
                Some(j) => j < self.pairs@.len() && self.pairs@[j as int].0@ == key@,
                None => forall|i: int| 0 <= i < self.pairs@.len() ==> self.pairs@[i].0@ != key@,
            },
    {
        let n = self.pairs.len();
        let mut i: usize = 0;
        while i < n
            invariant
                n == self.pairs@.len(),
                0 <= i <= n,
                forall|m: int| 0 <= m < i ==> self.pairs@[m].0@ != key@,
            decreases n - i,
        {
            if self.pairs[i].0 == *key {
                return Some(i);
            }
            i += 1;
        }
        None
    }

    /// Whether the frame binds `key`.
    pub fn contains_key(&self, key: &String) -> (r: bool)
        ensures
            r == self@.contains_key(key@),
    {
        proof {
            lemma_assoc_contains(self.pairs@, key@);
        }
        self.position_of(key).is_some()
    }

    /// The value bound to `key`, if any.
    pub fn get(&self, key: &String) -> (r: Option<&V>)
        requires
            self.wf(),
        ensures
            match r {
                Some(v) => self@.contains_key(key@) && self@[key@] == *v,
                None => !self@.contains_key(key@),
            },
    {
        proof {
            lemma_assoc_contains(self.pairs@, key@);
        }
        match self.position_of(key) {
            Some(j) => {
                proof {
                    lemma_assoc_value(self.pairs@, j as int);
                }
                Some(&self.pairs[j].1)
            },
            None => None,
        }
    }

    /// Binds `key` to `value`, returning the value the frame previously
    /// bound to `key`, if any.
    pub fn insert(&mut self, key: String, value: V) -> (r: Option<V>)
        requires
            old(self).wf(),
        ensures
            final(self).wf(),
            final(self)@ == old(self)@.insert(key@, value),
            r == (if old(self)@.contains_key(key@) {
                Some(old(self)@[key@])
            } else {
                None::<V>
            }),
    {
        proof {
            lemma_assoc_contains(self.pairs@, key@);
        }
        match self.position_of(&key) {
            Some(j) => {
                proof {
                    lemma_assoc_value(self.pairs@, j as int);
                    lemma_assoc_update(self.pairs@, j as int, (key, value));
                }
                let mut entry = (key, value);
                core::mem::swap(&mut self.pairs[j], &mut entry);
                Some(entry.1)
            },
            None => {
                self.pairs.push((key, value));
                proof {
                    assert(self.pairs@.drop_last() =~= old(self).pairs@);
                }
                None
            },
        }
    }

    /// Whether the frame is empty.
    pub fn is_empty(&self) -> (r: bool)
        ensures
            r == (self@ == Map::<Seq<char>, V>::empty()),
    {
        proof {
            if self.pairs@.len() > 0 {
                lemma_assoc_contains(self.pairs@, self.pairs@[0].0@);
            }
        }
        self.pairs.len() == 0
    }
}

impl<V> Default for Frame<V> {
    /// An empty frame.
    fn default() -> (r: Self)
        ensures
            r@ == Map::<Seq<char>, V>::empty(),
            r.wf(),
    {
        Frame::new()
    }
}

} // verus!
