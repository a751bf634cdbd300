//! From a resolution to the identifier of a mode that an output supports.

use vstd::prelude::*;
use crate::config::Mode;
use crate::error::Error;
use crate::search::{first_in, holds, lemma_first_in, lemma_push_contains};
use crate::server::{ModeInfo, OutputInfo};

verus! {

/// The identifiers of the server's modes that share one resolution.
#[derive(Debug)]
pub struct ModeGroup {
    pub mode: Mode,
    pub ids: Vec<u32>,
}

/// The server's mode identifiers, grouped by resolution.
#[derive(Debug)]
pub struct ModeIndex {
    pub groups: Vec<ModeGroup>,
}

/// The index of the first group at or after `from` that is for `mode`.
pub open spec fn group_of(groups: Seq<ModeGroup>, mode: Mode, from: int) -> Option<int>
    decreases groups.len() - from,
{
    if from < 0 || from >= groups.len() {
        None
    } else if groups[from].mode == mode {
        Some(from)
    } else {
        group_of(groups, mode, from + 1)
    }
}

/// The resolution of a mode that the server knows.
pub open spec fn size_of(info: ModeInfo) -> Mode {
    Mode { w: info.width, h: info.height }
}

/// Among the first `n` modes of the list, one has this resolution.
pub open spec fn size_listed(modes: Seq<ModeInfo>, n: int, mode: Mode) -> bool {
    exists|i: int| 0 <= i < n && size_of(#[trigger] modes[i]) == mode
}

/// Among the first `n` modes of the list, one has this resolution and identifier.
pub open spec fn id_listed(modes: Seq<ModeInfo>, n: int, mode: Mode, id: u32) -> bool {
    exists|i: int| 0 <= i < n && size_of(#[trigger] modes[i]) == mode && modes[i].id == id
}

impl ModeIndex {
    /// Some mode of the server has this resolution.
    pub open spec fn has_mode(self, mode: Mode) -> bool {
        group_of(self.groups@, mode, 0).is_some()
    }

    /// The identifiers of the server's modes of this resolution.
    pub open spec fn ids(self, mode: Mode) -> Seq<u32> {
        match group_of(self.groups@, mode, 0) {
            Some(g) => self.groups@[g].ids@,
            None => Seq::empty(),
        }
    }

    /// The server has a mode of this resolution under this identifier.
    pub open spec fn has_id(self, mode: Mode, id: u32) -> bool {
        self.ids(mode).contains(id)
    }

    /// What resolving `mode` for an output that supports `supported` gives:
    /// the first identifier of `supported` that belongs to a mode of this
    /// resolution; an error where the server has no mode of this resolution,
    /// another where none of them is supported.
    pub open spec fn resolve(self, supported: Seq<u32>, mode: Mode) -> Result<u32, Error> {
        if !self.has_mode(mode) {
            Err(Error::ModeNotFound(mode))
        } else {
            match first_in(supported, self.ids(mode), 0) {
                Some(k) => Ok(supported[k]),
                None => Err(Error::ModeNotSupported(mode)),
            }
        }
    }

    fn find_group(&self, mode: &Mode) -> (r: Option<usize>)
        ensures
            match r {
                Some(g) => group_of(self.groups@, *mode, 0) == Some(g as int) && g < self.groups@.len(),
                None => group_of(self.groups@, *mode, 0).is_none(),
            },
    {
        let mut g: usize = 0;
        while g < self.groups.len()
            invariant
                0 <= g <= self.groups@.len(),
                group_of(self.groups@, *mode, 0) == group_of(self.groups@, *mode, g as int),
            decreases self.groups@.len() - g,
        {
            if self.groups[g].mode == *mode {
                return Some(g);
            }
            g += 1;
        }
        None
    }
}

/// What `group_of` finds: the first group for the resolution, and nothing
/// only where no group is for it.
pub proof fn lemma_group_of(groups: Seq<ModeGroup>, mode: Mode, from: int)
    requires
        0 <= from,
    ensures
        match group_of(groups, mode, from) {
            Some(g) => from <= g < groups.len() && groups[g].mode == mode && forall|j: int|
                from <= j < g ==> (#[trigger] groups[j]).mode != mode,
            None => forall|j: int| from <= j < groups.len() ==> (#[trigger] groups[j]).mode != mode,
        },
    decreases groups.len() - from,
{
    if from < groups.len() && groups[from].mode != mode {
        lemma_group_of(groups, mode, from + 1);
    }
}

proof fn lemma_group_of_same_modes(a: Seq<ModeGroup>, b: Seq<ModeGroup>, mode: Mode, from: int)
    requires
        a.len() == b.len(),
        forall|i: int| 0 <= i < a.len() ==> (#[trigger] a[i]).mode == b[i].mode,
    ensures
        group_of(a, mode, from) == group_of(b, mode, from),
    decreases a.len() - from,
{
    if 0 <= from < a.len() {
        assert(a[from].mode == b[from].mode);
        if a[from].mode != mode {
            lemma_group_of_same_modes(a, b, mode, from + 1);
        }
    }
}

proof fn lemma_group_of_push(a: Seq<ModeGroup>, group: ModeGroup, mode: Mode, from: int)
    requires
        0 <= from <= a.len(),
    ensures
        group_of(a.push(group), mode, from) == match group_of(a, mode, from) {
            Some(g) => Some(g),
            None => if group.mode == mode {
                Some(a.len() as int)
            } else {
                None
            },
        },
    decreases a.len() - from,
{
    let b = a.push(group);
    if from < a.len() {
        assert(b[from] == a[from]);
        if a[from].mode != mode {
            lemma_group_of_push(a, group, mode, from + 1);
        }
    } else {
        assert(b[from] == group);
        assert(group_of(b, mode, from + 1).is_none());
    }
}

/// Groups the identifiers of the server's modes by resolution. The index
/// has a resolution exactly where some mode of the list has it, and holds an
/// identifier under it exactly where a mode of the list has both.
pub fn mode_map(modes: &Vec<ModeInfo>) -> (index: ModeIndex)
    ensures
        forall|mode: Mode| #[trigger] index.has_mode(mode) <==> size_listed(modes@, modes@.len() as int, mode),
        forall|mode: Mode, id: u32| #[trigger]
            index.has_id(mode, id) <==> id_listed(modes@, modes@.len() as int, mode, id),
{
    let mut index = ModeIndex { groups: Vec::new() };
    let mut n: usize = 0;
    while n < modes.len()
        invariant
            0 <= n <= modes@.len(),
            forall|mode: Mode| #[trigger] index.has_mode(mode) <==> size_listed(modes@, n as int, mode),
            forall|mode: Mode, id: u32| #[trigger]
                index.has_id(mode, id) <==> id_listed(modes@, n as int, mode, id),
        decreases modes@.len() - n,
    {
        let info = modes[n];
        let size = Mode { w: info.width, h: info.height };
        let ghost before = index;
        match index.find_group(&size) {
            Some(g) => {
                let mut group = index.groups.remove(g);
                if !holds(&group.ids, info.id) {
                    group.ids.push(info.id);
                }
                index.groups.insert(g, group);
                proof {
                    assert(index.groups@ =~= before.groups@.update(g as int, group));
                    lemma_group_of(before.groups@, size, 0);
                    assert forall|mode: Mode|
                        group_of(index.groups@, mode, 0) == group_of(before.groups@, mode, 0) by {
                        lemma_group_of_same_modes(index.groups@, before.groups@, mode, 0);
                    }
                    assert forall|mode: Mode, id: u32| #[trigger]
                        index.has_id(mode, id) <==> before.has_id(mode, id) || (mode == size && id
                            == info.id) by {
                        lemma_group_of(before.groups@, mode, 0);
                        lemma_push_contains(before.groups@[g as int].ids@, info.id, id);
                    }
                }
            },
            None => {
                let mut ids: Vec<u32> = Vec::new();
                ids.push(info.id);
                let group = ModeGroup { mode: size, ids };
                index.groups.push(group);
                proof {
                    assert forall|mode: Mode|
                        group_of(index.groups@, mode, 0) == match group_of(before.groups@, mode, 0) {
                            Some(g) => Some(g),
                            None => if mode == size {
                                Some(before.groups@.len() as int)
                            } else {
                                None
                            },
                        } by {
                        lemma_group_of_push(before.groups@, group, mode, 0);
                    }
                    assert forall|mode: Mode, id: u32| #[trigger]
                        index.has_id(mode, id) <==> before.has_id(mode, id) || (mode == size && id
                            == info.id) by {
                        lemma_group_of(before.groups@, mode, 0);
                        lemma_push_contains(Seq::<u32>::empty(), info.id, id);
                        assert(ids@ =~= Seq::<u32>::empty().push(info.id));
                    }
                }
            },
        }
        proof {
            assert(size == size_of(modes@[n as int]));
            assert forall|mode: Mode| #[trigger]
                index.has_mode(mode) <==> size_listed(modes@, n + 1, mode) by {
                assert(index.has_mode(mode) <==> before.has_mode(mode) || mode == size);
                assert(before.has_mode(mode) <==> size_listed(modes@, n as int, mode));
            }
            assert forall|mode: Mode, id: u32| #[trigger]
                index.has_id(mode, id) <==> id_listed(modes@, n + 1, mode, id) by {
                assert(before.has_id(mode, id) <==> id_listed(modes@, n as int, mode, id));
            }
        }
        n += 1;
    }
    index
}

/// Finds the identifier of a mode of resolution `mode` that the output
/// supports: the first of the output's modes that has this resolution.
pub fn find_mode_id(info: &OutputInfo, mode_map: &ModeIndex, mode: &Mode) -> (r: Result<u32, Error>)
    ensures
        r == mode_map.resolve(info.modes@, *mode),
{
    match mode_map.find_group(mode) {
        None => Err(Error::ModeNotFound(*mode)),
        Some(g) => {
            let ids = &mode_map.groups[g].ids;
            let mut k: usize = 0;
            while k < info.modes.len()
                invariant
                    0 <= k <= info.modes@.len(),
                    group_of(mode_map.groups@, *mode, 0) == Some(g as int),
                    ids@ == mode_map.groups@[g as int].ids@,
                    first_in(info.modes@, ids@, 0) == first_in(info.modes@, ids@, k as int),
                decreases info.modes@.len() - k,
            {
                if holds(ids, info.modes[k]) {
                    return Ok(info.modes[k]);
                }
                k += 1;
            }
            Err(Error::ModeNotSupported(*mode))
        },
    }
}

/// A resolved identifier is one that the output supports and that belongs to
/// a mode of the wanted resolution; resolving fails only where there is none.
pub proof fn lemma_resolve(index: ModeIndex, supported: Seq<u32>, mode: Mode)
    ensures
        match index.resolve(supported, mode) {
            Ok(id) => supported.contains(id) && index.has_id(mode, id),
            Err(Error::ModeNotFound(m)) => m == mode && !index.has_mode(mode),
            Err(Error::ModeNotSupported(m)) => m == mode && index.has_mode(mode) && forall|id: u32|
                supported.contains(id) ==> !index.has_id(mode, id),
            Err(Error::NoCrtc(_)) => false,
        },
{
    lemma_first_in(supported, index.ids(mode), 0);
}

/// Resolving against an index that was built from the server's mode list
/// goes by that list alone: the result is the first identifier the output
/// supports that the list has under the wanted resolution; it fails with
/// the one error exactly where the list has no mode of that resolution, and
/// with the other exactly where it has some but the output supports none.
pub proof fn lemma_resolve_by_list(index: ModeIndex, modes: Seq<ModeInfo>, supported: Seq<u32>, mode: Mode)
    requires
        forall|m: Mode| #[trigger] index.has_mode(m) <==> size_listed(modes, modes.len() as int, m),
        forall|m: Mode, id: u32| #[trigger]
            index.has_id(m, id) <==> id_listed(modes, modes.len() as int, m, id),
    ensures
        match index.resolve(supported, mode) {
            Ok(id) => exists|k: int|
                0 <= k < supported.len() && #[trigger] supported[k] == id && id_listed(
                    modes,
                    modes.len() as int,
                    mode,
                    id,
                ) && forall|j: int|
                    0 <= j < k ==> !id_listed(modes, modes.len() as int, mode, #[trigger] supported[j]),
            Err(Error::ModeNotFound(m)) => m == mode && !size_listed(modes, modes.len() as int, mode),
            Err(Error::ModeNotSupported(m)) => m == mode && size_listed(modes, modes.len() as int, mode)
                && forall|j: int|
                0 <= j < supported.len() ==> !id_listed(modes, modes.len() as int, mode, #[trigger] supported[j]),
            Err(Error::NoCrtc(_)) => false,
        },
{
    lemma_first_in(supported, index.ids(mode), 0);
    assert(index.has_mode(mode) <==> size_listed(modes, modes.len() as int, mode));
    assert forall|j: int| 0 <= j < supported.len() implies (index.ids(mode).contains(#[trigger] supported[j])
        <==> id_listed(modes, modes.len() as int, mode, supported[j])) by {
        assert(index.has_id(mode, supported[j]) <==> id_listed(modes, modes.len() as int, mode, supported[j]));
    }
}

} // verus!
