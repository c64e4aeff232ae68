use vstd::prelude::*;

use crate::chain::{
    highest_index_of, lemma_highest_step, lemma_lookup_full, lemma_lookup_step, lookup,
    lookup_before,
};
use crate::error::Error;

verus! {

// The persistent chain is backed by `im_rc`'s structurally shared
// containers: a persistent vector of persistent hash maps. Verus sees the
// containers only through the declarations, the two content models and the
// wrappers below; everything else in this module is verified against them.

#[verifier::external_type_specification]
#[verifier::external_body]
#[verifier::reject_recursive_types(A)]
pub struct ExImVector<A>(im_rc::Vector<A>);

#[verifier::external_type_specification]
#[verifier::external_body]
#[verifier::reject_recursive_types(K)]
#[verifier::reject_recursive_types(V)]
#[verifier::reject_recursive_types(S)]
pub struct ExImHashMap<K, V, S>(im_rc::HashMap<K, V, S>);

/// The contents of one persistent frame: which value each key is bound to.
pub uninterp spec fn layer_model(m: im_rc::HashMap<String, i64>) -> Map<Seq<char>, i64>;

/// The contents of a persistent frame sequence, oldest first, each frame
/// by its contents.
pub uninterp spec fn layers_model(v: im_rc::Vector<im_rc::HashMap<String, i64>>) -> Seq<
    Map<Seq<char>, i64>,
>;

/// The contents of a frame with no bindings.
pub open spec fn empty_layer() -> Map<Seq<char>, i64> {
    Map::empty()
}

/// Relies on `im_rc::HashMap::new`: a freshly constructed map is empty.
#[verifier::external_body]
fn layer_new() -> (r: im_rc::HashMap<String, i64>)
    ensures
        layer_model(r) == empty_layer(),
{
    im_rc::HashMap::new()
}

/// Relies on `im_rc::HashMap::insert`: the key is bound to the value and
/// the previous value bound to an equal key, if any, is returned.
#[verifier::external_body]
fn layer_insert(m: &mut im_rc::HashMap<String, i64>, key: String, value: i64) -> (r: Option<i64>)
    ensures
        layer_model(*final(m)) == layer_model(*old(m)).insert(key@, value),
        r == (if layer_model(*old(m)).contains_key(key@) {
            Some(layer_model(*old(m))[key@])
        } else {
            None::<i64>
        }),
{
    m.insert(key, value)
}

/// Relies on `im_rc::HashMap::get`: the value stored for an equal key.
#[verifier::external_body]
fn layer_get(m: &im_rc::HashMap<String, i64>, key: &String) -> (r: Option<i64>)
    ensures
        r == (if layer_model(*m).contains_key(key@) {
            Some(layer_model(*m)[key@])
        } else {
            None::<i64>
        }),
{
    m.get(key).copied()
}

/// Relies on `im_rc::HashMap::contains_key`.
#[verifier::external_body]
fn layer_contains(m: &im_rc::HashMap<String, i64>, key: &String) -> (r: bool)
    ensures
        r == layer_model(*m).contains_key(key@),
{
    m.contains_key(key)
}

/// Relies on `im_rc::HashMap::clone`: a structurally shared copy with the
/// same contents.
#[verifier::external_body]
fn layer_dup(m: &im_rc::HashMap<String, i64>) -> (r: im_rc::HashMap<String, i64>)
    ensures
        layer_model(r) == layer_model(*m),
{
    m.clone()
}

/// Relies on `im_rc::Vector::unit`: a one-element vector.
#[verifier::external_body]
fn layers_unit(m: im_rc::HashMap<String, i64>) -> (r: im_rc::Vector<im_rc::HashMap<String, i64>>)
    ensures
        layers_model(r) == seq![layer_model(m)],
{
    im_rc::Vector::unit(m)
}

/// Relies on `im_rc::Vector::len`.
#[verifier::external_body]
fn layers_len(v: &im_rc::Vector<im_rc::HashMap<String, i64>>) -> (r: usize)
    ensures
        r == layers_model(*v).len(),
{
    v.len()
}

/// Relies on `im_rc::Vector::get`: the element at an in-bounds index.
#[verifier::external_body]
fn layers_get<'a>(
    v: &'a im_rc::Vector<im_rc::HashMap<String, i64>>,
    i: usize,
) -> (r: &'a im_rc::HashMap<String, i64>)
    requires
        i < layers_model(*v).len(),
    ensures
        layer_model(*r) == layers_model(*v)[i as int],
{
    v.get(i).unwrap()
}

/// Relies on `im_rc::Vector::set`: replaces the element at an in-bounds
/// index, leaving the rest of the vector as it was.
#[verifier::external_body]
fn layers_set(
    v: &mut im_rc::Vector<im_rc::HashMap<String, i64>>,
    i: usize,
    m: im_rc::HashMap<String, i64>,
)
    requires
        i < layers_model(*old(v)).len(),
    ensures
        layers_model(*final(v)) == layers_model(*old(v)).update(i as int, layer_model(m)),
{
    let _ = v.set(i, m);
}

/// Relies on `im_rc::Vector::push_back`: appends one element.
#[verifier::external_body]
fn layers_push(v: &mut im_rc::Vector<im_rc::HashMap<String, i64>>, m: im_rc::HashMap<String, i64>)
    ensures
        layers_model(*final(v)) == layers_model(*old(v)).push(layer_model(m)),
{
    v.push_back(m)
}

/// Relies on `im_rc::Vector::pop_back`: removes and returns the last
/// element, or returns `None` and changes nothing when the vector is empty.
#[verifier::external_body]
fn layers_pop(v: &mut im_rc::Vector<im_rc::HashMap<String, i64>>) -> (r: Option<
    im_rc::HashMap<String, i64>,
>)
    ensures
        r is Some <==> layers_model(*old(v)).len() > 0,
        layers_model(*old(v)).len() > 0 ==> layers_model(*final(v)) == layers_model(
            *old(v),
        ).drop_last(),
        layers_model(*old(v)).len() == 0 ==> layers_model(*final(v)) == layers_model(*old(v)),
        match r {
            Some(m) => layer_model(m) == layers_model(*old(v)).last(),
            None => layers_model(*old(v)).len() == 0,
        },
{
    v.pop_back()
}

/// Relies on `im_rc::Vector::split_off`: keeps the elements below the
/// index and returns those from the index up, in order.
#[verifier::external_body]
fn layers_split(v: &mut im_rc::Vector<im_rc::HashMap<String, i64>>, i: usize) -> (r: im_rc::Vector<
    im_rc::HashMap<String, i64>,
>)
    requires
        i <= layers_model(*old(v)).len(),
    ensures
        layers_model(*final(v)) == layers_model(*old(v)).subrange(0, i as int),
        layers_model(r) == layers_model(*old(v)).subrange(
            i as int,
            layers_model(*old(v)).len() as int,
        ),
{
    v.split_off(i)
}

/// Relies on `im_rc::Vector::append`: concatenates the other vector's
/// elements after this vector's, preserving both orders.
#[verifier::external_body]
fn layers_append(
    v: &mut im_rc::Vector<im_rc::HashMap<String, i64>>,
    other: im_rc::Vector<im_rc::HashMap<String, i64>>,
)
    ensures
        layers_model(*final(v)) == layers_model(*old(v)) + layers_model(other),
{
    v.append(other)
}

/// Relies on `im_rc::Vector::clone`: a structurally shared copy with the
/// same contents.
#[verifier::external_body]
fn layers_dup(v: &im_rc::Vector<im_rc::HashMap<String, i64>>) -> (r: im_rc::Vector<
    im_rc::HashMap<String, i64>,
>)
    ensures
        layers_model(r) == layers_model(*v),
{
    v.clone()
}

/// A persistent chain of key-value frames over structurally shared
/// storage.
///
/// Queries behave exactly as on [`crate::ChainMap`]: frame 0 is the
/// oldest, the last frame is the leaf, and a lookup scans from the leaf
/// backward. Cloning the chain is a constant-time operation; a clone and
/// its source share storage and diverge only where one of them writes.
/// Splitting and appending move whole frame suffixes between chains
/// while keeping any untouched storage shared.
pub struct LockedChainMap {
    maps: im_rc::Vector<im_rc::HashMap<String, i64>>,
}

impl View for LockedChainMap {
    type V = Seq<Map<Seq<char>, i64>>;

    closed spec fn view(&self) -> Seq<Map<Seq<char>, i64>> {
        layers_model(self.maps)
    }
}

impl LockedChainMap {
    /// The chain holds at least one frame. A split may transiently leave
    /// a chain without frames; such a chain is repaired by appending.
    pub open spec fn wf(&self) -> bool {
        self@.len() >= 1
    }

    /// A chain of one frame.
    pub fn new(map: im_rc::HashMap<String, i64>) -> (r: Self)
        ensures
            r@ == seq![layer_model(map)],
            r.wf(),
    {
        LockedChainMap { maps: layers_unit(map) }
    }

    /// The number of frames in the chain.
    pub fn child_len(&self) -> (r: usize)
        ensures
            r == self@.len(),
    {
        layers_len(&self.maps)
    }

    /// Writes `key -> value` into the leaf frame and returns the value
    /// the leaf frame previously bound to `key`, if any. Older frames are
    /// neither consulted nor changed; sharers of the old leaf keep it.
    pub fn insert(&mut self, key: String, value: i64) -> (r: Option<i64>)
        requires
            old(self).wf(),
        ensures
            final(self).wf(),
            final(self)@ == old(self)@.update(
                old(self)@.len() - 1,
                old(self)@.last().insert(key@, value),
            ),
            r == (if old(self)@.last().contains_key(key@) {
                Some(old(self)@.last()[key@])
            } else {
                None::<i64>
            }),
    {
        let i = layers_len(&self.maps) - 1;
        let mut m = layer_dup(layers_get(&self.maps, i));
        let prev = layer_insert(&mut m, key, value);
        layers_set(&mut self.maps, i, m);
        prev
    }

    /// Writes `key -> value` into frame `idx` and returns the value that
    /// frame previously bound to `key`. Fails with `IndexOutOfRange`, and
    /// leaves the chain unchanged, when no frame `idx` exists.
    pub fn insert_at(&mut self, idx: usize, key: String, value: i64) -> (r: Result<
        Option<i64>,
        Error,
    >)
        ensures
            match r {
                Ok(prev) => {
                    &&& idx < old(self)@.len()
                    &&& final(self)@ == old(self)@.update(
                        idx as int,
                        old(self)@[idx as int].insert(key@, value),
                    )
                    &&& prev == (if old(self)@[idx as int].contains_key(key@) {
                        Some(old(self)@[idx as int][key@])
                    } else {
                        None::<i64>
                    })
                },
                Err(e) => {
                    &&& idx >= old(self)@.len()
                    &&& e == Error::IndexOutOfRange
                    &&& final(self)@ == old(self)@
                },
            },
    {
        if idx < layers_len(&self.maps) {
            let mut m = layer_dup(layers_get(&self.maps, idx));
            let prev = layer_insert(&mut m, key, value);
            layers_set(&mut self.maps, idx, m);
            Ok(prev)
        } else {
            Err(Error::IndexOutOfRange)
        }
    }

    /// The value visible for `key`: the binding in the newest frame that
    /// contains `key`, or `None` when no frame does.
    pub fn get(&self, key: &String) -> (r: Option<i64>)
        ensures
            r == lookup(self@, key@),
    {
        proof {
            lemma_lookup_full(self@, key@);
        }
        let mut i = layers_len(&self.maps);
        while i > 0
            invariant
                i <= self@.len(),
                lookup(self@, key@) == lookup(self@.subrange(0, i as int), key@),
            decreases i,
        {
            i -= 1;
            proof {
                lemma_lookup_step(self@, i as int, key@);
            }
            match layer_get(layers_get(&self.maps, i), key) {
                Some(v) => {
                    return Some(v);
                },
                None => {},
            }
        }
        None
    }

    /// Replaces the visible binding for `key` in place: writes `value`
    /// into the newest frame that contains `key` and returns the value it
    /// held. Returns `None`, changing nothing, when no frame contains
    /// `key`.
    pub fn get_mut(&mut self, key: &String, value: i64) -> (r: Option<i64>)
        ensures
            match highest_index_of(old(self)@, key@) {
                Some(m) => {
                    &&& final(self)@ == old(self)@.update(m, old(self)@[m].insert(key@, value))
                    &&& r == Some(old(self)@[m][key@])
                },
                None => {
                    &&& final(self)@ == old(self)@
                    &&& r is None
                },
            },
    {
        proof {
            lemma_lookup_full(self@, key@);
        }
        let mut i = layers_len(&self.maps);
        while i > 0
            invariant
                *self == *old(self),
                i <= self@.len(),
                highest_index_of(self@, key@) == highest_index_of(
                    self@.subrange(0, i as int),
                    key@,
                ),
            decreases i,
        {
            i -= 1;
            proof {
                lemma_highest_step(self@, i as int, key@);
            }
            if layer_contains(layers_get(&self.maps, i), key) {
                let mut m = layer_dup(layers_get(&self.maps, i));
                let prev = layer_insert(&mut m, key.clone(), value);
                layers_set(&mut self.maps, i, m);
                return prev;
            }
        }
        None
    }

    /// The binding for `key` visible to the frames strictly below `idx`:
    /// only frames `0 .. idx` are searched, newest first. When `idx` is
    /// at least the chain's length the whole chain is searched.
    pub fn get_before(&self, idx: usize, key: &String) -> (r: Option<i64>)
        ensures
            r == lookup_before(self@, idx as int, key@),
    {
        let n = layers_len(&self.maps);
        let mut i = if idx < n {
            idx
        } else {
            n
        };
        proof {
            if idx >= self@.len() {
                lemma_lookup_full(self@, key@);
            }
        }
        while i > 0
            invariant
                i <= self@.len(),
                lookup_before(self@, idx as int, key@) == lookup(
                    self@.subrange(0, i as int),
                    key@,
                ),
            decreases i,
        {
            i -= 1;
            proof {
                lemma_lookup_step(self@, i as int, key@);
            }
            match layer_get(layers_get(&self.maps, i), key) {
                Some(v) => {
                    return Some(v);
                },
                None => {},
            }
        }
        None
    }

    /// Replaces, in place, the binding for `key` visible strictly below
    /// `idx`, returning the value it held; `None`, changing nothing, when
    /// no frame in that window contains `key`.
    pub fn get_before_mut(&mut self, idx: usize, key: &String, value: i64) -> (r: Option<i64>)
        ensures
            ({
                let w = if idx < old(self)@.len() {
                    idx as int
                } else {
                    old(self)@.len() as int
                };
                match highest_index_of(old(self)@.subrange(0, w), key@) {
                    Some(m) => {
                        &&& final(self)@ == old(self)@.update(
                            m,
                            old(self)@[m].insert(key@, value),
                        )
                        &&& r == Some(old(self)@[m][key@])
                    },
                    None => {
                        &&& final(self)@ == old(self)@
                        &&& r is None
                    },
                }
            }),
    {
        let n = layers_len(&self.maps);
        let w = if idx < n {
            idx
        } else {
            n
        };
        let ghost win = self@.subrange(0, w as int);
        let mut i = w;
        while i > 0
            invariant
                *self == *old(self),
                i <= w <= self@.len(),
                w as int == (if idx < self@.len() {
                    idx as int
                } else {
                    self@.len() as int
                }),
                win == self@.subrange(0, w as int),
                highest_index_of(win, key@) == highest_index_of(
                    self@.subrange(0, i as int),
                    key@,
                ),
            decreases i,
        {
            i -= 1;
            proof {
                lemma_highest_step(self@, i as int, key@);
            }
            if layer_contains(layers_get(&self.maps, i), key) {
                proof {
                    assert(highest_index_of(win, key@) == Some(i as int));
                }
                let mut m = layer_dup(layers_get(&self.maps, i));
                let prev = layer_insert(&mut m, key.clone(), value);
                layers_set(&mut self.maps, i, m);
                return prev;
            }
        }
        None
    }

    /// Appends `map` as the new leaf frame.
    pub fn new_child_with(&mut self, map: im_rc::HashMap<String, i64>)
        ensures
            final(self)@ == old(self)@.push(layer_model(map)),
    {
        layers_push(&mut self.maps, map)
    }

    /// Appends an empty frame as the new leaf.
    pub fn new_child(&mut self)
        ensures
            final(self)@ == old(self)@.push(Map::empty()),
    {
        layers_push(&mut self.maps, layer_new())
    }

    /// Whether the leaf frame itself binds `key` (no shadow search).
    pub fn last_has(&self, key: &String) -> (r: bool)
        requires
            self.wf(),
        ensures
            r == self@.last().contains_key(key@),
    {
        self.has_at(layers_len(&self.maps) - 1, key)
    }

    /// Whether frame `idx` exists and itself binds `key` (no shadow
    /// search).
    pub fn has_at(&self, idx: usize, key: &String) -> (r: bool)
        ensures
            r == (idx < self@.len() && self@[idx as int].contains_key(key@)),
    {
        if idx < layers_len(&self.maps) {
            layer_contains(layers_get(&self.maps, idx), key)
        } else {
            false
        }
    }

    /// The highest frame index whose frame binds `key`, or `None`.
    pub fn get_last_index(&self, key: &String) -> (r: Option<usize>)
        ensures
            match r {
                Some(i) => highest_index_of(self@, key@) == Some(i as int),
                None => highest_index_of(self@, key@) is None,
            },
    {
        proof {
            lemma_lookup_full(self@, key@);
        }
        let mut i = layers_len(&self.maps);
        while i > 0
            invariant
                i <= self@.len(),
                highest_index_of(self@, key@) == highest_index_of(
                    self@.subrange(0, i as int),
                    key@,
                ),
            decreases i,
        {
            i -= 1;
            proof {
                lemma_highest_step(self@, i as int, key@);
            }
            if layer_contains(layers_get(&self.maps, i), key) {
                return Some(i);
            }
        }
        None
    }

    /// Splits the chain at `idx`: frames `0 .. idx` remain here, frames
    /// `idx ..` move to the returned chain, both in order. Unchanged
    /// frame storage stays shared between the two results. Either side
    /// may transiently be without frames; append repairs that.
    pub fn split_off(&mut self, idx: usize) -> (r: Self)
        requires
            idx <= old(self)@.len(),
        ensures
            final(self)@ == old(self)@.subrange(0, idx as int),
            r@ == old(self)@.subrange(idx as int, old(self)@.len() as int),
    {
        let maps = layers_split(&mut self.maps, idx);
        LockedChainMap { maps }
    }

    /// Concatenates `other`'s frames after this chain's, preserving both
    /// orders; `other` is consumed, but clones of it made earlier keep
    /// their contents.
    pub fn append(&mut self, other: Self)
        ensures
            final(self)@ == old(self)@ + other@,
    {
        layers_append(&mut self.maps, other.maps)
    }

    /// Removes and returns the leaf frame. When only one frame remains it
    /// is cleared in place instead, and its prior contents are returned,
    /// so a well-formed chain never loses its last frame.
    pub fn remove_child(&mut self) -> (r: Option<im_rc::HashMap<String, i64>>)
        ensures
            old(self)@.len() > 1 ==> final(self)@ == old(self)@.drop_last(),
            old(self)@.len() == 1 ==> final(self)@ == seq![Map::<Seq<char>, i64>::empty()],
            old(self)@.len() == 0 ==> final(self)@ == old(self)@,
            match r {
                Some(m) => old(self)@.len() >= 1 && layer_model(m) == old(self)@.last(),
                None => old(self)@.len() == 0,
            },
    {
        if layers_len(&self.maps) == 1 {
            let m = layer_dup(layers_get(&self.maps, 0));
            layers_set(&mut self.maps, 0, layer_new());
            proof {
                assert(final(self)@ =~= seq![Map::<Seq<char>, i64>::empty()]);
            }
            Some(m)
        } else {
            layers_pop(&mut self.maps)
        }
    }
}

impl Clone for LockedChainMap {
    /// A constant-time copy: the clone shares all frame storage with its
    /// source, and each side keeps its own contents once either writes.
    fn clone(&self) -> (r: Self)
        ensures
            r@ == self@,
    {
        LockedChainMap { maps: layers_dup(&self.maps) }
    }
}

impl Default for LockedChainMap {
    /// A chain of one empty frame.
    fn default() -> (r: Self)
        ensures
            r@ == seq![Map::<Seq<char>, i64>::empty()],
            r.wf(),
    {
        LockedChainMap::new(layer_new())
    }
}

} // verus!
