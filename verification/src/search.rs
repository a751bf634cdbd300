//! Searching lists of identifiers.

use vstd::prelude::*;

verus! {

/// The index of the first of `ids`, at or after `from`, that `pool` holds.
pub open spec fn first_in(ids: Seq<u32>, pool: Seq<u32>, from: int) -> Option<int>
    decreases ids.len() - from,
{
    if from < 0 || from >= ids.len() {
        None
    } else if pool.contains(ids[from]) {
        Some(from)
    } else {
        first_in(ids, pool, from + 1)
    }
}

/// Whether the list holds the identifier.
pub fn holds(ids: &Vec<u32>, id: u32) -> (r: bool)
    ensures
        r == ids@.contains(id),
{
    let mut i: usize = 0;
    while i < ids.len()
        invariant
            0 <= i <= ids@.len(),
            forall|k: int| 0 <= k < i ==> ids@[k] != id,
        decreases ids@.len() - i,
    {
        if ids[i] == id {
            return true;
        }
        i += 1;
    }
    false
}

/// What `first_in` finds: the first identifier that the pool holds,
/// and nothing only where it holds none of them.
pub proof fn lemma_first_in(ids: Seq<u32>, pool: Seq<u32>, from: int)
    requires
        0 <= from,
    ensures
        match first_in(ids, pool, from) {
            Some(k) => from <= k < ids.len() && pool.contains(ids[k]) && forall|j: int|
                from <= j < k ==> !pool.contains(#[trigger] ids[j]),
            None => forall|j: int| from <= j < ids.len() ==> !pool.contains(#[trigger] ids[j]),
        },
    decreases ids.len() - from,
{
    if from < ids.len() && !pool.contains(ids[from]) {
        lemma_first_in(ids, pool, from + 1);
    }
}

/// A list with one more identifier at its end holds that identifier and
/// what it held before.
pub proof fn lemma_push_contains(ids: Seq<u32>, id: u32, other: u32)
    ensures
        ids.push(id).contains(other) <==> ids.contains(other) || other == id,
{
    let p = ids.push(id);
    if ids.contains(other) {
        let i = choose|i: int| 0 <= i < ids.len() && ids[i] == other;
        assert(p[i] == other);
    }
    if other == id {
        assert(p[ids.len() as int] == other);
    }
    if p.contains(other) {
        let i = choose|i: int| 0 <= i < p.len() && p[i] == other;
        if i < ids.len() {
            assert(ids[i] == other);
        }
    }
}

} // verus!
