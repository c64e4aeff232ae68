use vstd::prelude::*;

use crate::chain::{
    highest_index_of, lemma_highest_step, lemma_lookup_full, lemma_lookup_step, lookup,
    lookup_before,
};
use crate::error::Error;
use crate::frame::Frame;

verus! {

/// An exclusively owned chain of key-value frames.
///
/// Frame 0 is the oldest scope and the last frame is the leaf. A lookup
/// scans from the leaf backward, so a newer frame's binding for a key
/// shadows an older one. The chain always holds at least one frame.
#[derive(Clone, Debug, PartialEq)]
pub struct ChainMap<V> {
    maps: Vec<Frame<V>>,
}

impl<V> View for ChainMap<V> {
    type V = Seq<Map<Seq<char>, V>>;

    closed spec fn view(&self) -> Seq<Map<Seq<char>, V>> {
        self.maps@.map_values(|f: Frame<V>| f@)
    }
}

impl<V> ChainMap<V> {
    /// The chain holds at least one frame, and every frame is well formed.
    pub closed spec fn wf(&self) -> bool {
        &&& self.maps@.len() >= 1
        &&& forall|i: int| 0 <= i < self.maps@.len() ==> (#[trigger] self.maps@[i]).wf()
    }

    /// A chain of one frame.
    pub fn new(map: Frame<V>) -> (r: Self)
        requires
            map.wf(),
        ensures
            r.wf(),
            r@ =~= seq![map@],
    {
        let mut maps = Vec::new();
        maps.push(map);
        let r = ChainMap { maps };
        proof {
            assert(r@ =~= seq![map@]);
        }
        r
    }

    /// The number of frames in the chain.
    pub fn child_len(&self) -> (r: usize)
        ensures
            r == self@.len(),
    {
        self.maps.len()
    }

    /// Writes `key -> value` into the leaf frame and returns the value the
    /// leaf frame previously bound to `key`, if any. Older frames are
    /// neither consulted nor changed.
    pub fn insert(&mut self, key: String, value: V) -> (r: Option<V>)
        requires
            old(self).wf(),
        ensures
            final(self).wf(),
            final(self)@ =~= old(self)@.update(
                old(self)@.len() - 1,
                old(self)@.last().insert(key@, value),
            ),
            r == (if old(self)@.last().contains_key(key@) {
                Some(old(self)@.last()[key@])
            } else {
                None::<V>
            }),
    {
        let i = self.maps.len() - 1;
        let fr = &mut self.maps[i];
        let r = fr.insert(key, value);
        proof {
            assert(final(self)@ =~= old(self)@.update(i as int, final(self).maps@[i as int]@));
        }
        r
    }

    /// Writes `key -> value` into frame `idx` and returns the value that
    /// frame previously bound to `key`. Fails with `IndexOutOfRange`, and
    /// leaves the chain unchanged, when no frame `idx` exists.
    pub fn insert_at(&mut self, idx: usize, key: String, value: V) -> (r: Result<
        Option<V>,
        Error,
    >)
        requires
            old(self).wf(),
        ensures
            final(self).wf(),
            match r {
                Ok(prev) => {
                    &&& idx < old(self)@.len()
                    &&& final(self)@ =~= old(self)@.update(
                        idx as int,
                        old(self)@[idx as int].insert(key@, value),
                    )
                    &&& prev == (if old(self)@[idx as int].contains_key(key@) {
                        Some(old(self)@[idx as int][key@])
                    } else {
                        None::<V>
                    })
                },
                Err(e) => {
                    &&& idx >= old(self)@.len()
                    &&& e == Error::IndexOutOfRange
                    &&& *final(self) == *old(self)
                },
            },
    {
        if idx < self.maps.len() {
            let fr = &mut self.maps[idx];
            let r = fr.insert(key, value);
            proof {
                assert(final(self)@ =~= old(self)@.update(
                    idx as int,
                    final(self).maps@[idx as int]@,
                ));
            }
            Ok(r)
        } else {
            Err(Error::IndexOutOfRange)
        }
    }

    /// The value visible for `key`: the binding in the newest frame that
    /// contains `key`, or `None` when no frame does.
    pub fn get(&self, key: &String) -> (r: Option<&V>)
        requires
            self.wf(),
        ensures
            match r {
                Some(v) => lookup(self@, key@) == Some(*v),
                None => lookup(self@, key@) is None,
            },
    {
        proof {
            lemma_lookup_full(self@, key@);
        }
        let mut i = self.maps.len();
        while i > 0
            invariant
                self.wf(),
                i <= self@.len(),
                lookup(self@, key@) == lookup(self@.subrange(0, i as int), key@),
            decreases i,
        {
            i -= 1;
            proof {
                lemma_lookup_step(self@, i as int, key@);
            }
            match self.maps[i].get(key) {
                Some(v) => {
                    return Some(v);
                },
                None => {},
            }
        }
        None
    }

    /// Replaces the visible binding for `key` in place: writes `value` into
    /// the newest frame that contains `key` and returns the value it held.
    /// Returns `None`, changing nothing, when no frame contains `key`.
    pub fn get_mut(&mut self, key: &String, value: V) -> (r: Option<V>)
        requires
            old(self).wf(),
        ensures
            final(self).wf(),
            match highest_index_of(old(self)@, key@) {
                Some(m) => {
                    &&& final(self)@ =~= old(self)@.update(
                        m,
                        old(self)@[m].insert(key@, value),
                    )
                    &&& r == Some(old(self)@[m][key@])
                },
                None => {
                    &&& *final(self) == *old(self)
                    &&& r is None
                },
            },
    {
        proof {
            lemma_lookup_full(self@, key@);
        }
        let mut i = self.maps.len();
        while i > 0
            invariant
                old(self).wf(),
                *self == *old(self),
                i <= self@.len(),
                highest_index_of(self@, key@) == highest_index_of(
                    self@.subrange(0, i as int),
                    key@,
                ),
            decreases i,
        {
            i -= 1;
            proof {
                lemma_highest_step(self@, i as int, key@);
            }
            if self.maps[i].contains_key(key) {
                let fr = &mut self.maps[i];
                let prev = fr.insert(key.clone(), value);
                proof {
                    assert(final(self)@ =~= old(self)@.update(
                        i as int,
                        final(self).maps@[i as int]@,
                    ));
                }
                return prev;
            }
        }
        None
    }

    /// The binding for `key` visible to the frames strictly below `idx`:
    /// only frames `0 .. idx` are searched, newest first. When `idx` is at
    /// least the chain's length the whole chain is searched.
    pub fn get_before(&self, idx: usize, key: &String) -> (r: Option<&V>)
        requires
            self.wf(),
        ensures
            match r {
                Some(v) => lookup_before(self@, idx as int, key@) == Some(*v),
                None => lookup_before(self@, idx as int, key@) is None,
            },
    {
        let mut i = if idx < self.maps.len() {
            idx
        } else {
            self.maps.len()
        };
        proof {
            if idx >= self@.len() {
                lemma_lookup_full(self@, key@);
            }
        }
        while i > 0
            invariant
                self.wf(),
                i <= self@.len(),
                lookup_before(self@, idx as int, key@) == lookup(
                    self@.subrange(0, i as int),
                    key@,
                ),
            decreases i,
        {
            i -= 1;
            proof {
                lemma_lookup_step(self@, i as int, key@);
            }
            match self.maps[i].get(key) {
                Some(v) => {
                    return Some(v);
                },
                None => {},
            }
        }
        None
    }

    /// Replaces, in place, the binding for `key` visible strictly below
    /// `idx`, returning the value it held; `None`, changing nothing, when
    /// no frame in that window contains `key`.
    pub fn get_before_mut(&mut self, idx: usize, key: &String, value: V) -> (r: Option<V>)
        requires
            old(self).wf(),
        ensures
            final(self).wf(),
            ({
                let w = if idx < old(self)@.len() {
                    idx as int
                } else {
                    old(self)@.len() as int
                };
                match highest_index_of(old(self)@.subrange(0, w), key@) {
                    Some(m) => {
                        &&& final(self)@ =~= old(self)@.update(
                            m,
                            old(self)@[m].insert(key@, value),
                        )
                        &&& r == Some(old(self)@[m][key@])
                    },
                    None => {
                        &&& *final(self) == *old(self)
                        &&& r is None
                    },
                }
            }),
    {
        let w = if idx < self.maps.len() {
            idx
        } else {
            self.maps.len()
        };
        let ghost win = self@.subrange(0, w as int);
        let mut i = w;
        while i > 0
            invariant
                old(self).wf(),
                *self == *old(self),
                i <= w <= self@.len(),
                w as int == (if idx < self@.len() {
                    idx as int
                } else {
                    self@.len() as int
                }),
                win == self@.subrange(0, w as int),
                highest_index_of(win, key@) == highest_index_of(
                    self@.subrange(0, i as int),
                    key@,
                ),
            decreases i,
        {
            i -= 1;
            proof {
                lemma_highest_step(self@, i as int, key@);
            }
            if self.maps[i].contains_key(key) {
                proof {
                    assert(highest_index_of(win, key@) == Some(i as int));
                }
                let fr = &mut self.maps[i];
                let prev = fr.insert(key.clone(), value);
                proof {
                    assert(final(self)@ =~= old(self)@.update(
                        i as int,
                        final(self).maps@[i as int]@,
                    ));
                }
                return prev;
            }
        }
        None
    }

    /// Appends `map` as the new leaf frame.
    pub fn new_child_with(&mut self, map: Frame<V>)
        requires
            old(self).wf(),
            map.wf(),
        ensures
            final(self).wf(),
            final(self)@ =~= old(self)@.push(map@),
    {
        self.maps.push(map);
        proof {
            assert(final(self)@ =~= old(self)@.push(final(self).maps@.last()@));
        }
    }

    /// Appends an empty frame as the new leaf.
    pub fn new_child(&mut self)
        requires
            old(self).wf(),
        ensures
            final(self).wf(),
            final(self)@ =~= old(self)@.push(Map::empty()),
    {
        self.new_child_with(Frame::new());
    }

    /// Whether the leaf frame itself binds `key` (no shadow search).
    pub fn last_has(&self, key: &String) -> (r: bool)
        requires
            self.wf(),
        ensures
            r == self@.last().contains_key(key@),
    {
        self.has_at(self.maps.len() - 1, key)
    }

    /// Whether frame `idx` exists and itself binds `key` (no shadow search).
    pub fn has_at(&self, idx: usize, key: &String) -> (r: bool)
        ensures
            r == (idx < self@.len() && self@[idx as int].contains_key(key@)),
    {
        if idx < self.maps.len() {
            self.maps[idx].contains_key(key)
        } else {
            false
        }
    }

    /// The highest frame index whose frame binds `key`, or `None`.
    pub fn get_last_index(&self, key: &String) -> (r: Option<usize>)
        ensures
            match r {
                Some(i) => highest_index_of(self@, key@) == Some(i as int),
                None => highest_index_of(self@, key@) is None,
            },
    {
        proof {
            lemma_lookup_full(self@, key@);
        }
        let mut i = self.maps.len();
        while i > 0
            invariant
                i <= self@.len(),
                highest_index_of(self@, key@) == highest_index_of(
                    self@.subrange(0, i as int),
                    key@,
                ),
            decreases i,
        {
            i -= 1;
            proof {
                lemma_highest_step(self@, i as int, key@);
            }
            if self.maps[i].contains_key(key) {
                return Some(i);
            }
        }
        None
    }

    /// Removes and returns the leaf frame. When only one frame remains it
    /// is cleared in place instead, and its prior contents are returned, so
    /// the chain never loses its last frame.
    pub fn remove_child(&mut self) -> (r: Option<Frame<V>>)
        requires
            old(self).wf(),
        ensures
            final(self).wf(),
            old(self)@.len() > 1 ==> final(self)@ =~= old(self)@.drop_last(),
            old(self)@.len() == 1 ==> final(self)@ =~= seq![Map::<Seq<char>, V>::empty()],
            match r {
                Some(f) => f@ == old(self)@.last() && f.wf(),
                None => false,
            },
    {
        if self.maps.len() == 1 {
            let mut f = Frame::new();
            core::mem::swap(&mut self.maps[0], &mut f);
            proof {
                assert(final(self)@ =~= seq![Map::<Seq<char>, V>::empty()]);
            }
            Some(f)
        } else {
            let r = self.maps.pop();
            proof {
                assert(final(self)@ =~= old(self)@.drop_last());
            }
            r
        }
    }
}

impl<V> Default for ChainMap<V> {
    /// A chain of one empty frame.
    fn default() -> (r: Self)
        ensures
            r.wf(),
            r@ =~= seq![Map::<Seq<char>, V>::empty()],
    {
        ChainMap::new(Frame::new())
    }
}

} // verus!
