//! Handing out controllers to outputs from the pool of those still free.

use vstd::prelude::*;
use crate::search::{first_in, holds, lemma_first_in, lemma_push_contains};
use crate::server::OutputInfo;

verus! {

/// The controllers that no output has been given yet in this pass, in the
/// order in which the server lists them.
#[derive(Debug)]
pub struct FreePool {
    pub crtcs: Vec<u32>,
}

/// The index of the first occurrence of `crtc` in `pool` at or after `from`.
pub open spec fn position(pool: Seq<u32>, crtc: u32, from: int) -> Option<int>
    decreases pool.len() - from,
{
    if from < 0 || from >= pool.len() {
        None
    } else if pool[from] == crtc {
        Some(from)
    } else {
        position(pool, crtc, from + 1)
    }
}

/// The pool without `crtc`.
pub open spec fn without(pool: Seq<u32>, crtc: u32) -> Seq<u32> {
    match position(pool, crtc, 0) {
        Some(i) => pool.remove(i),
        None => pool,
    }
}

/// The controller that an output gets: the one that drives it already, if
/// any; else the first of those it can use that is still free.
pub open spec fn allocation(bound: u32, capable: Seq<u32>, free: Seq<u32>) -> Option<u32> {
    if bound != 0 {
        Some(bound)
    } else {
        match first_in(capable, free, 0) {
            Some(k) => Some(capable[k]),
            None => None,
        }
    }
}

/// The pool after an output was served.
pub open spec fn pool_after(bound: u32, capable: Seq<u32>, free: Seq<u32>) -> Seq<u32> {
    match allocation(bound, capable, free) {
        Some(c) => without(free, c),
        None => free,
    }
}

/// What `position` finds: the first occurrence, and nothing only where the
/// controller is not in the pool.
pub proof fn lemma_position(pool: Seq<u32>, crtc: u32, from: int)
    requires
        0 <= from,
    ensures
        match position(pool, crtc, from) {
            Some(i) => from <= i < pool.len() && pool[i] == crtc && forall|j: int|
                from <= j < i ==> pool[j] != crtc,
            None => forall|j: int| from <= j < pool.len() ==> pool[j] != crtc,
        },
    decreases pool.len() - from,
{
    if from < pool.len() && pool[from] != crtc {
        lemma_position(pool, crtc, from + 1);
    }
}

/// Taking a controller out of a pool that holds none twice leaves a pool
/// that holds none twice, does not hold the controller any more, and holds
/// every other controller that the pool held, and no new one.
pub proof fn lemma_without(pool: Seq<u32>, crtc: u32)
    requires
        pool.no_duplicates(),
    ensures
        without(pool, crtc).no_duplicates(),
        !without(pool, crtc).contains(crtc),
        forall|c: u32| c != crtc ==> (#[trigger] without(pool, crtc).contains(c) <==> pool.contains(c)),
        pool.contains(crtc) ==> without(pool, crtc).len() + 1 == pool.len(),
        !pool.contains(crtc) ==> without(pool, crtc) == pool,
{
    lemma_position(pool, crtc, 0);
    let rest = without(pool, crtc);
    match position(pool, crtc, 0) {
        Some(i) => {
            assert forall|c: u32| c != crtc implies (#[trigger] rest.contains(c) <==> pool.contains(c)) by {
                if pool.contains(c) {
                    let j = choose|j: int| 0 <= j < pool.len() && pool[j] == c;
                    if j < i {
                        assert(rest[j] == c);
                    } else {
                        assert(rest[j - 1] == c);
                    }
                }
                if rest.contains(c) {
                    let j = choose|j: int| 0 <= j < rest.len() && rest[j] == c;
                    if j < i {
                        assert(pool[j] == c);
                    } else {
                        assert(pool[j + 1] == c);
                    }
                }
            }
            assert(!rest.contains(crtc)) by {
                if rest.contains(crtc) {
                    let j = choose|j: int| 0 <= j < rest.len() && rest[j] == crtc;
                    if j < i {
                        assert(pool[j] == crtc);
                    } else {
                        assert(pool[j + 1] == crtc);
                    }
                }
            }
            assert(pool.contains(crtc));
        },
        None => {},
    }
}

/// The controllers of the list, each once, in the order of first occurrence.
pub open spec fn distinct(crtcs: Seq<u32>) -> Seq<u32>
    decreases crtcs.len(),
{
    if crtcs.len() == 0 {
        Seq::empty()
    } else {
        let head = distinct(crtcs.drop_last());
        if head.contains(crtcs.last()) {
            head
        } else {
            head.push(crtcs.last())
        }
    }
}

/// `distinct` holds no controller twice, holds exactly the controllers of
/// the list, and leaves a list alone that holds none twice.
pub proof fn lemma_distinct(crtcs: Seq<u32>)
    ensures
        distinct(crtcs).no_duplicates(),
        forall|c: u32| #[trigger] distinct(crtcs).contains(c) <==> crtcs.contains(c),
        crtcs.no_duplicates() ==> distinct(crtcs) == crtcs,
    decreases crtcs.len(),
{
    if crtcs.len() > 0 {
        let init = crtcs.drop_last();
        let last = crtcs.last();
        let head = distinct(init);
        lemma_distinct(init);
        assert(crtcs =~= init.push(last));
        assert forall|c: u32| #[trigger] distinct(crtcs).contains(c) <==> crtcs.contains(c) by {
            lemma_push_contains(init, last, c);
            lemma_push_contains(head, last, c);
        }
        if crtcs.no_duplicates() {
            if init.contains(last) {
                let j = choose|j: int| 0 <= j < init.len() && init[j] == last;
                assert(crtcs[j] == crtcs[crtcs.len() - 1]);
            }
            assert(init.no_duplicates());
        }
    }
}

impl FreePool {
    pub open spec fn view(&self) -> Seq<u32> {
        self.crtcs@
    }

    /// No controller is in the pool twice.
    pub open spec fn wf(&self) -> bool {
        self.crtcs@.no_duplicates()
    }

    /// The pool of all the controllers that the server lists, each once, in
    /// the order of its first occurrence.
    pub fn new(crtcs: &Vec<u32>) -> (pool: FreePool)
        ensures
            pool.wf(),
            pool@ == distinct(crtcs@),
    {
        let mut pool = FreePool { crtcs: Vec::new() };
        let mut i: usize = 0;
        while i < crtcs.len()
            invariant
                0 <= i <= crtcs@.len(),
                pool@ == distinct(crtcs@.take(i as int)),
            decreases crtcs@.len() - i,
        {
            let c = crtcs[i];
            assert(crtcs@.take(i + 1).drop_last() == crtcs@.take(i as int));
            let seen = pool.contains(c);
            if !seen {
                pool.crtcs.push(c);
            }
            i += 1;
        }
        proof {
            assert(crtcs@.take(crtcs@.len() as int) == crtcs@);
            lemma_distinct(crtcs@);
        }
        pool
    }

    /// Whether the controller is still free.
    pub fn contains(&self, crtc: u32) -> (r: bool)
        ensures
            r == self@.contains(crtc),
    {
        holds(&self.crtcs, crtc)
    }

    /// Takes the controller out of the pool, if it is there.
    pub fn remove(&mut self, crtc: u32) -> (r: bool)
        ensures
            final(self)@ == without(old(self)@, crtc),
            r == old(self)@.contains(crtc),
    {
        proof {
            lemma_position(self@, crtc, 0);
        }
        let mut i: usize = 0;
        while i < self.crtcs.len()
            invariant
                0 <= i <= self@.len(),
                *self == *old(self),
                position(self@, crtc, 0) == position(self@, crtc, i as int),
                forall|j: int| 0 <= j < i ==> self@[j] != crtc,
            decreases self@.len() - i,
        {
            if self.crtcs[i] == crtc {
                self.crtcs.remove(i);
                return true;
            }
            i += 1;
        }
        false
    }
}

/// Gives the output a controller and takes that controller out of the pool.
/// An output that a controller drives already keeps it, whatever else is
/// free; another gets the first controller it can use that is still free;
/// where there is none, nothing is given and the pool stays as it is.
pub fn allocate_crtc(info: &OutputInfo, free: &mut FreePool) -> (r: Option<u32>)
    ensures
        r == allocation(info.crtc, info.crtcs@, old(free)@),
        final(free)@ == pool_after(info.crtc, info.crtcs@, old(free)@),
        old(free).wf() ==> final(free).wf() && (r.is_some() ==> !final(free)@.contains(r.unwrap())),
{
    proof {
        lemma_first_in(info.crtcs@, free@, 0);
        match allocation(info.crtc, info.crtcs@, free@) {
            Some(c) => {
                if free.wf() {
                    lemma_without(free@, c);
                }
            },
            None => {},
        }
    }
    let dest = if info.crtc != 0 {
        Some(info.crtc)
    } else {
        let mut found: Option<u32> = None;
        let mut k: usize = 0;
        while k < info.crtcs.len() && found.is_none()
            invariant
                0 <= k <= info.crtcs@.len(),
                match found {
                    Some(c) => first_in(info.crtcs@, free@, 0) == Some(k - 1) && c
                        == info.crtcs@[k - 1],
                    None => first_in(info.crtcs@, free@, 0) == first_in(
                        info.crtcs@,
                        free@,
                        k as int,
                    ),
                },
            decreases info.crtcs@.len() - k,
        {
            if free.contains(info.crtcs[k]) {
                found = Some(info.crtcs[k]);
            }
            k += 1;
        }
        found
    };
    match dest {
        Some(c) => {
            free.remove(c);
        },
        None => {},
    }
    dest
}

/// A controller that was given is not given again to an output that no
/// controller drives yet: from the pool as it was left, or from any pool
/// that holds no more than it, such an output gets another controller or
/// none.
pub proof fn lemma_not_given_twice(
    bound: u32,
    capable: Seq<u32>,
    free: Seq<u32>,
    later: Seq<u32>,
    next_capable: Seq<u32>,
)
    requires
        free.no_duplicates(),
        allocation(bound, capable, free).is_some(),
        forall|c: u32| later.contains(c) ==> pool_after(bound, capable, free).contains(c),
    ensures
        allocation(0, next_capable, later) != allocation(bound, capable, free),
{
    let c = allocation(bound, capable, free).unwrap();
    lemma_without(free, c);
    lemma_first_in(next_capable, later, 0);
}

/// What is given is the controller that drives the output already, or one
/// that was free.
pub proof fn lemma_given_was_free(bound: u32, capable: Seq<u32>, free: Seq<u32>)
    ensures
        match allocation(bound, capable, free) {
            Some(c) => (bound != 0 && c == bound) || (bound == 0 && free.contains(c) && capable.contains(c)),
            None => bound == 0 && forall|k: int| 0 <= k < capable.len() ==> !free.contains(#[trigger] capable[k]),
        },
{
    lemma_first_in(capable, free, 0);
}

/// Serving an output never adds to the pool: what is free afterwards was
/// free before, and where a free controller was given the pool is smaller
/// by one.
pub proof fn lemma_pool_shrinks(bound: u32, capable: Seq<u32>, free: Seq<u32>)
    requires
        free.no_duplicates(),
    ensures
        pool_after(bound, capable, free).no_duplicates(),
        forall|c: u32| #[trigger] pool_after(bound, capable, free).contains(c) ==> free.contains(c),
        allocation(bound, capable, free).is_some() && free.contains(allocation(bound, capable, free).unwrap())
            ==> pool_after(bound, capable, free).len() + 1 == free.len(),
{
    match allocation(bound, capable, free) {
        Some(c) => {
            lemma_without(free, c);
        },
        None => {},
    }
}

} // verus!
