use vstd::prelude::*;

verus! {

/// The mathematical contents of a list of elements: the set of their
/// character sequences.
pub open spec fn elem_set(s: Seq<String>) -> Set<Seq<char>>
    decreases s.len(),
{
    if s.len() == 0 {
        Set::empty()
    } else {
        elem_set(s.drop_last()).insert(s.last()@)
    }
}

/// An element is in the contents exactly when some entry equals it.
pub proof fn lemma_elem_set_contains(s: Seq<String>, x: Seq<char>)
    ensures
        elem_set(s).contains(x) <==> exists|i: int| 0 <= i < s.len() && s[i]@ == x,
    decreases s.len(),
{
    if s.len() > 0 {
        lemma_elem_set_contains(s.drop_last(), x);
        if s.last()@ != x && elem_set(s).contains(x) {
            let i = choose|i: int| 0 <= i < s.len() - 1 && s.drop_last()[i]@ == x;
            assert(s[i]@ == x);
        }
        if exists|i: int| 0 <= i < s.len() && s[i]@ == x {
            let i = choose|i: int| 0 <= i < s.len() && s[i]@ == x;
            if i < s.len() - 1 {
                assert(s.drop_last()[i]@ == x);
            }
        }
    }
}

/// One membership-only layer of a chain: a set of strings.
#[derive(Clone, Debug, PartialEq)]
pub struct SetFrame {
    elems: Vec<String>,
}

impl View for SetFrame {
    type V = Set<Seq<char>>;

    closed spec fn view(&self) -> Set<Seq<char>> {
        elem_set(self.elems@)
    }
}

impl SetFrame {
    /// No element occurs twice.
    pub closed spec fn wf(&self) -> bool {
        forall|i: int, j: int| 0 <= i < j < self.elems@.len() ==> self.elems@[i]@
            != self.elems@[j]@
    }

    /// An empty frame.
    pub fn new() -> (r: Self)
        ensures
            r@ == Set::<Seq<char>>::empty(),
            r.wf(),
    {
        SetFrame { elems: Vec::new() }
    }

    /// The stored element equal to `value`, if any.
    pub fn get(&self, value: &String) -> (r: Option<&String>)
        ensures
            match r {
                Some(v) => self@.contains(value@) && v@ == value@,
                None => !self@.contains(value@),
            },
    {
        let n = self.elems.len();
        let mut i: usize = 0;
        while i < n
            invariant
                n == self.elems@.len(),
                0 <= i <= n,
                forall|m: int| 0 <= m < i ==> self.elems@[m]@ != value@,
            decreases n - i,
        {
            if self.elems[i] == *value {
                proof {
                    lemma_elem_set_contains(self.elems@, value@);
                    assert(self.elems@[i as int]@ == value@);
                }
                return Some(&self.elems[i]);
            }
            i += 1;
        }
        proof {
            lemma_elem_set_contains(self.elems@, value@);
        }
        None
    }

    /// Whether the frame holds `value`.
    pub fn contains(&self, value: &String) -> (r: bool)
        ensures
            r == self@.contains(value@),
    {
        self.get(value).is_some()
    }

    /// Adds `value`; reports whether it was newly added.
    pub fn insert(&mut self, value: String) -> (r: bool)
        requires
            old(self).wf(),
        ensures
            final(self).wf(),
            final(self)@ == old(self)@.insert(value@),
            r == !old(self)@.contains(value@),
    {
        proof {
            lemma_elem_set_contains(self.elems@, value@);
        }
        if self.contains(&value) {
            proof {
                assert(final(self)@ =~= old(self)@.insert(value@));
            }
            false
        } else {
            self.elems.push(value);
            proof {
                assert(self.elems@.drop_last() =~= old(self).elems@);
            }
            true
        }
    }

    /// Whether the frame is empty.
    pub fn is_empty(&self) -> (r: bool)
        ensures
            r == (self@ == Set::<Seq<char>>::empty()),
    {
        proof {
            if self.elems@.len() > 0 {
                lemma_elem_set_contains(self.elems@, self.elems@[0]@);
            }
        }
        self.elems.len() == 0
    }
}

impl Default for SetFrame {
    /// An empty frame.
    fn default() -> (r: Self)
        ensures
            r@ == Set::<Seq<char>>::empty(),
            r.wf(),
    {
        SetFrame::new()
    }
}

/// Whether `x` is visible anywhere in a chain of membership frames.
pub open spec fn member(frames: Seq<Set<Seq<char>>>, x: Seq<char>) -> bool {
    exists|i: int| 0 <= i < frames.len() && frames[i].contains(x)
}

/// An exclusively owned chain of membership-only frames: the shadowing
/// lookup of a key-value chain specialized to bare membership.
///
/// The chain always holds at least one frame; frame 0 is the oldest and
/// the last frame is the leaf.
#[derive(Clone, Debug, PartialEq)]
pub struct ChainSet {
    sets: Vec<SetFrame>,
}

impl View for ChainSet {
    type V = Seq<Set<Seq<char>>>;

    closed spec fn view(&self) -> Seq<Set<Seq<char>>> {
        self.sets@.map_values(|f: SetFrame| f@)
    }
}

impl ChainSet {
    /// The chain holds at least one frame, and every frame is well formed.
    pub closed spec fn wf(&self) -> bool {
        &&& self.sets@.len() >= 1
        &&& forall|i: int| 0 <= i < self.sets@.len() ==> (#[trigger] self.sets@[i]).wf()
    }

    /// A chain of one frame.
    pub fn new(set: SetFrame) -> (r: Self)
        requires
            set.wf(),
        ensures
            r.wf(),
            r@ =~= seq![set@],
    {
        let mut sets = Vec::new();
        sets.push(set);
        let r = ChainSet { sets };
        proof {
            assert(r@ =~= seq![set@]);
        }
        r
    }

    /// The number of frames in the chain.
    pub fn child_len(&self) -> (r: usize)
        ensures
            r == self@.len(),
    {
        self.sets.len()
    }

    /// Adds `value` to the leaf frame unless it is already visible in any
    /// frame. Returns `true` exactly when the value was newly added; a
    /// value already visible anywhere is reported as a duplicate and the
    /// chain is left unchanged.
    pub fn insert(&mut self, value: String) -> (r: bool)
        requires
            old(self).wf(),
        ensures
            final(self).wf(),
            r == !member(old(self)@, value@),
            member(old(self)@, value@) ==> *final(self) == *old(self),
            !member(old(self)@, value@) ==> final(self)@ =~= old(self)@.update(
                old(self)@.len() - 1,
                old(self)@.last().insert(value@),
            ),
    {
        if self.contains(&value) {
            false
        } else {
            let i = self.sets.len() - 1;
            proof {
                assert(!self@[i as int].contains(value@));
            }
            let fr = &mut self.sets[i];
            let r = fr.insert(value);
            proof {
                assert(final(self)@ =~= old(self)@.update(i as int, final(self).sets@[i as int]@));
            }
            r
        }
    }

    /// Whether `value` is visible in any frame, leaf to root.
    pub fn contains(&self, value: &String) -> (r: bool)
        ensures
            r == member(self@, value@),
    {
        let mut i = self.sets.len();
        while i > 0
            invariant
                i <= self@.len(),
                forall|m: int| i <= m < self@.len() ==> !self@[m].contains(value@),
            decreases i,
        {
            i -= 1;
            if self.sets[i].contains(value) {
                proof {
                    assert(self@[i as int].contains(value@));
                }
                return true;
            }
        }
        false
    }

    /// The stored element equal to `value` in the newest frame holding
    /// one, or `None` when `value` is not visible.
    pub fn get(&self, value: &String) -> (r: Option<&String>)
        ensures
            match r {
                Some(v) => member(self@, value@) && v@ == value@,
                None => !member(self@, value@),
            },
    {
        let mut i = self.sets.len();
        while i > 0
            invariant
                i <= self@.len(),
                forall|m: int| i <= m < self@.len() ==> !self@[m].contains(value@),
            decreases i,
        {
            i -= 1;
            match self.sets[i].get(value) {
                Some(v) => {
                    proof {
                        assert(self@[i as int].contains(value@));
                    }
                    return Some(v);
                },
                None => {},
            }
        }
        None
    }

    /// Appends an empty frame as the new leaf.
    pub fn new_child(&mut self)
        requires
            old(self).wf(),
        ensures
            final(self).wf(),
            final(self)@ =~= old(self)@.push(Set::empty()),
    {
        self.new_child_with(SetFrame::new());
    }

    /// Appends `set` as the new leaf frame.
    pub fn new_child_with(&mut self, set: SetFrame)
        requires
            old(self).wf(),
            set.wf(),
        ensures
            final(self).wf(),
            final(self)@ =~= old(self)@.push(set@),
    {
        self.sets.push(set);
        proof {
            assert(final(self)@ =~= old(self)@.push(final(self).sets@.last()@));
        }
    }

    /// Removes and returns the leaf frame. When only one frame remains it
    /// is cleared in place instead, and its prior contents are returned, so
    /// the chain never loses its last frame.
    pub fn remove_child(&mut self) -> (r: Option<SetFrame>)
        requires
            old(self).wf(),
        ensures
            final(self).wf(),
            old(self)@.len() > 1 ==> final(self)@ =~= old(self)@.drop_last(),
            old(self)@.len() == 1 ==> final(self)@ =~= seq![Set::<Seq<char>>::empty()],
            match r {
                Some(f) => f@ == old(self)@.last() && f.wf(),
                None => false,
            },
    {
        if self.sets.len() == 1 {
            let mut f = SetFrame::new();
            core::mem::swap(&mut self.sets[0], &mut f);
            proof {
                assert(final(self)@ =~= seq![Set::<Seq<char>>::empty()]);
            }
            Some(f)
        } else {
            let r = self.sets.pop();
            proof {
                assert(final(self)@ =~= old(self)@.drop_last());
            }
            r
        }
    }
}

impl Default for ChainSet {
    /// A chain of one empty frame.
    fn default() -> (r: Self)
        ensures
            r.wf(),
            r@ =~= seq![Set::<Seq<char>>::empty()],
    {
        ChainSet::new(SetFrame::new())
    }
}

} // verus!
