use vstd::prelude::*;

verus! {

/// The result of a shadowing lookup for `key` in `frames`: the value bound
/// to `key` in the highest-indexed frame whose map contains it, or `None`
/// when no frame does. Frame 0 is the oldest; the last frame is the leaf.
pub open spec fn lookup<V>(frames: Seq<Map<Seq<char>, V>>, key: Seq<char>) -> Option<V>
    decreases frames.len(),
{
    if frames.len() == 0 {
        None
    } else if frames.last().contains_key(key) {
        Some(frames.last()[key])
    } else {
        lookup(frames.drop_last(), key)
    }
}

/// A shadowing lookup restricted to the frames strictly below `idx`.
/// When `idx` is at least the chain's length, the whole chain is searched.
pub open spec fn lookup_before<V>(
    frames: Seq<Map<Seq<char>, V>>,
    idx: int,
    key: Seq<char>,
) -> Option<V> {
    if idx >= frames.len() {
        lookup(frames, key)
    } else {
        lookup(frames.subrange(0, idx), key)
    }
}

/// The highest frame index whose map contains `key`.
pub open spec fn highest_index_of<V>(
    frames: Seq<Map<Seq<char>, V>>,
    key: Seq<char>,
) -> Option<int>
    decreases frames.len(),
{
    if frames.len() == 0 {
        None
    } else if frames.last().contains_key(key) {
        Some(frames.len() - 1)
    } else {
        highest_index_of(frames.drop_last(), key)
    }
}

/// `lookup` and `highest_index_of` agree: a lookup finds exactly the value
/// stored in the highest frame that contains the key, and finds nothing
/// if and only if no frame contains the key.
pub proof fn lemma_lookup_highest<V>(frames: Seq<Map<Seq<char>, V>>, key: Seq<char>)
    ensures
        match highest_index_of(frames, key) {
            Some(m) => {
                &&& 0 <= m < frames.len()
                &&& frames[m].contains_key(key)
                &&& lookup(frames, key) == Some(frames[m][key])
                &&& forall|i: int| m < i < frames.len() ==> !frames[i].contains_key(key)
            },
            None => {
                &&& lookup(frames, key) is None
                &&& forall|i: int| 0 <= i < frames.len() ==> !frames[i].contains_key(key)
            },
        },
    decreases frames.len(),
{
    if frames.len() > 0 && !frames.last().contains_key(key) {
        lemma_lookup_highest(frames.drop_last(), key);
        assert forall|i: int| 0 <= i < frames.len() - 1 implies frames.drop_last()[i]
            == frames[i] by {}
    }
}

/// Restricting a lookup to one more frame either finds the key in that
/// frame or defers to the frames below it.
pub proof fn lemma_lookup_step<V>(frames: Seq<Map<Seq<char>, V>>, i: int, key: Seq<char>)
    requires
        0 <= i < frames.len(),
    ensures
        lookup(frames.subrange(0, i + 1), key) == (if frames[i].contains_key(key) {
            Some(frames[i][key])
        } else {
            lookup(frames.subrange(0, i), key)
        }),
{
    let upto = frames.subrange(0, i + 1);
    assert(upto.last() == frames[i]);
    assert(upto.drop_last() =~= frames.subrange(0, i));
}

/// The same step property for `highest_index_of`.
pub proof fn lemma_highest_step<V>(frames: Seq<Map<Seq<char>, V>>, i: int, key: Seq<char>)
    requires
        0 <= i < frames.len(),
    ensures
        highest_index_of(frames.subrange(0, i + 1), key) == (if frames[i].contains_key(key) {
            Some(i)
        } else {
            highest_index_of(frames.subrange(0, i), key)
        }),
{
    let upto = frames.subrange(0, i + 1);
    assert(upto.last() == frames[i]);
    assert(upto.drop_last() =~= frames.subrange(0, i));
}

/// No frame contains the key, so a lookup finds nothing.
pub proof fn lemma_lookup_absent<V>(frames: Seq<Map<Seq<char>, V>>, key: Seq<char>)
    requires
        forall|m: int| 0 <= m < frames.len() ==> !(#[trigger] frames[m]).contains_key(key),
    ensures
        lookup(frames, key) is None,
{
    lemma_lookup_highest(frames, key);
    if highest_index_of(frames, key) is Some {
        let m = highest_index_of(frames, key)->0;
        assert(!frames[m].contains_key(key));
    }
}

/// Frame `m` contains the key and no newer frame does, so the lookup
/// finds exactly frame `m`'s binding.
pub proof fn lemma_lookup_found_at<V>(frames: Seq<Map<Seq<char>, V>>, m: int, key: Seq<char>)
    requires
        0 <= m < frames.len(),
        frames[m].contains_key(key),
        forall|i: int| m < i < frames.len() ==> !(#[trigger] frames[i]).contains_key(key),
    ensures
        highest_index_of(frames, key) == Some(m),
        lookup(frames, key) == Some(frames[m][key]),
{
    lemma_lookup_highest(frames, key);
    match highest_index_of(frames, key) {
        Some(h) => {
            if h < m {
                assert(!frames[m].contains_key(key));
            }
            if h > m {
                assert(!frames[h].contains_key(key));
            }
        },
        None => {
            assert(!frames[m].contains_key(key));
        },
    }
}

/// Shadowing. On a chain that nowhere binds `key`, writing `key -> v`
/// into frame `i` and then `key -> v2` into a higher frame `j` makes `v2`
/// the visible value for `key`; the frames strictly below `j` still see
/// `v`; and the frames strictly below `i` see no binding for `key` at
/// all.
pub proof fn lemma_shadowing<V>(
    frames: Seq<Map<Seq<char>, V>>,
    i: int,
    j: int,
    key: Seq<char>,
    v: V,
    v2: V,
)
    requires
        0 <= i < j < frames.len(),
        forall|m: int| 0 <= m < frames.len() ==> !(#[trigger] frames[m]).contains_key(key),
    ensures
        ({
            let after = frames.update(i, frames[i].insert(key, v)).update(
                j,
                frames[j].insert(key, v2),
            );
            &&& lookup(after, key) == Some(v2)
            &&& lookup_before(after, j, key) == Some(v)
            &&& lookup_before(after, i, key) is None
        }),
{
    let after = frames.update(i, frames[i].insert(key, v)).update(j, frames[j].insert(key, v2));
    assert(after[j][key] == v2);
    lemma_lookup_found_at(after, j, key);

    let below_j = after.subrange(0, j);
    assert(below_j[i][key] == v);
    assert forall|m: int| i < m < below_j.len() implies !(#[trigger] below_j[m]).contains_key(
        key,
    ) by {
        assert(below_j[m] == frames[m]);
    }
    lemma_lookup_found_at(below_j, i, key);

    let below_i = after.subrange(0, i);
    assert forall|m: int| 0 <= m < below_i.len() implies !(#[trigger] below_i[m]).contains_key(
        key,
    ) by {
        assert(below_i[m] == frames[m]);
    }
    lemma_lookup_absent(below_i, key);
}

/// The chain's length after one push (`true`) or pop (`false`): a push
/// adds a frame; a pop removes the leaf unless only one frame remains,
/// which a pop instead clears in place, leaving the length alone.
pub open spec fn len_after_op(len: nat, is_push: bool) -> nat {
    if is_push {
        len + 1
    } else if len > 1 {
        (len - 1) as nat
    } else {
        len
    }
}

/// The chain's length after a sequence of push (`true`) and pop (`false`)
/// calls, applied first to last.
pub open spec fn len_after(len: nat, ops: Seq<bool>) -> nat
    decreases ops.len(),
{
    if ops.len() == 0 {
        len
    } else {
        len_after(len_after_op(len, ops.first()), ops.drop_first())
    }
}

/// Every pop in the sequence runs while more than one frame is present,
/// so no pop ever falls back to clearing the last frame.
pub open spec fn pops_covered(len: nat, ops: Seq<bool>) -> bool
    decreases ops.len(),
{
    if ops.len() == 0 {
        true
    } else {
        &&& (ops.first() || len >= 2)
        &&& pops_covered(len_after_op(len, ops.first()), ops.drop_first())
    }
}

/// The number of pushes in a sequence of calls.
pub open spec fn count_pushes(ops: Seq<bool>) -> nat
    decreases ops.len(),
{
    if ops.len() == 0 {
        0
    } else {
        (if ops.first() {
            1nat
        } else {
            0nat
        }) + count_pushes(ops.drop_first())
    }
}

/// Length invariant, first half. Under every sequence of pushes and pops
/// a chain of at least one frame keeps at least one frame.
pub proof fn lemma_len_at_least_one(len: nat, ops: Seq<bool>)
    requires
        len >= 1,
    ensures
        len_after(len, ops) >= 1,
    decreases ops.len(),
{
    if ops.len() > 0 {
        lemma_len_at_least_one(len_after_op(len, ops.first()), ops.drop_first());
    }
}

/// Length invariant, second half. When every pop runs with at least two
/// frames present, `n` pushes and `m` pops leave a chain of length
/// `len + n - m`; from the starting length 1 that is `1 + n - m`.
pub proof fn lemma_len_formula(len: nat, ops: Seq<bool>)
    requires
        len >= 1,
        pops_covered(len, ops),
    ensures
        len_after(len, ops) == len + count_pushes(ops) - (ops.len() - count_pushes(ops)),
    decreases ops.len(),
{
    if ops.len() > 0 {
        lemma_len_formula(len_after_op(len, ops.first()), ops.drop_first());
    }
}

/// Split/append round trip. Splitting a chain at any valid index and
/// appending the split-off part back restores the original chain.
pub proof fn lemma_split_append_round_trip<V>(frames: Seq<Map<Seq<char>, V>>, i: int)
    requires
        0 <= i <= frames.len(),
    ensures
        frames.subrange(0, i) + frames.subrange(i, frames.len() as int) == frames,
{
    assert(frames.subrange(0, i) + frames.subrange(i, frames.len() as int) =~= frames);
}

/// A whole chain is the restriction of itself to all of its frames.
pub proof fn lemma_lookup_full<V>(frames: Seq<Map<Seq<char>, V>>, key: Seq<char>)
    ensures
        lookup(frames.subrange(0, frames.len() as int), key) == lookup(frames, key),
        highest_index_of(frames.subrange(0, frames.len() as int), key) == highest_index_of(
            frames,
            key,
        ),
{
    assert(frames.subrange(0, frames.len() as int) =~= frames);
}

} // verus!
