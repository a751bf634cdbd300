//! Planning one synchronization pass: which controllers to reconfigure and
//! which to disable.

use vstd::prelude::*;
use crate::commit::{commit_steps, step_views, steps_of, unchanged, Step};
use crate::config::{Mode, MonConfig};
use crate::crtc::{allocate_crtc, allocation, distinct, lemma_distinct, lemma_without, without, FreePool};
use crate::error::Error;
use crate::modes::{find_mode_id, ModeIndex};
use crate::requests::{disable_request, disable_spec, enable_request, enable_spec};
use crate::search::{holds, lemma_first_in, lemma_push_contains};
use crate::server::{CrtcInfo, CrtcRequest, OutputInfo};

verus! {

/// A configured output: the output, what the profile wants of it, and what
/// the server reports of it.
#[derive(Debug, PartialEq, Eq)]
pub struct Configured {
    pub output: u32,
    pub conf: MonConfig,
    pub info: OutputInfo,
}

/// The index of the first entry of the setup at or after `from` that is for `output`.
pub open spec fn setup_at(setup: Seq<(u32, MonConfig)>, output: u32, from: int) -> Option<int>
    decreases setup.len() - from,
{
    if from < 0 || from >= setup.len() {
        None
    } else if setup[from].0 == output {
        Some(from)
    } else {
        setup_at(setup, output, from + 1)
    }
}

/// The outputs that the setup configures, each with its configuration, in
/// the order in which the server lists the outputs.
pub open spec fn in_conf(outputs: Seq<u32>, setup: Seq<(u32, MonConfig)>) -> Seq<(u32, MonConfig)>
    decreases outputs.len(),
{
    if outputs.len() == 0 {
        Seq::empty()
    } else {
        let head = in_conf(outputs.drop_last(), setup);
        match setup_at(setup, outputs.last(), 0) {
            Some(i) => head.push((outputs.last(), setup[i].1)),
            None => head,
        }
    }
}

fn conf_of<'a>(setup: &'a Vec<(u32, MonConfig)>, output: u32) -> (r: Option<&'a MonConfig>)
    ensures
        match setup_at(setup@, output, 0) {
            Some(i) => 0 <= i < setup@.len() && r == Some(&setup@[i].1),
            None => r.is_none(),
        },
{
    let mut i: usize = 0;
    while i < setup.len()
        invariant
            0 <= i <= setup@.len(),
            setup_at(setup@, output, 0) == setup_at(setup@, output, i as int),
        decreases setup@.len() - i,
    {
        if setup[i].0 == output {
            return Some(&setup[i].1);
        }
        i += 1;
    }
    None
}

/// Picks the outputs to configure: those of the server's outputs, in the
/// server's order, for which the matched profile has a configuration.
pub fn outputs_in_conf(outputs: &Vec<u32>, setup: &Vec<(u32, MonConfig)>) -> (r: Vec<(u32, MonConfig)>)
    ensures
        r@ == in_conf(outputs@, setup@),
{
    let mut out: Vec<(u32, MonConfig)> = Vec::new();
    let mut i: usize = 0;
    while i < outputs.len()
        invariant
            0 <= i <= outputs@.len(),
            out@ == in_conf(outputs@.take(i as int), setup@),
        decreases outputs@.len() - i,
    {
        assert(outputs@.take(i + 1).drop_last() == outputs@.take(i as int));
        match conf_of(setup, outputs[i]) {
            Some(conf) => {
                out.push((outputs[i], conf.clone()));
            },
            None => {},
        }
        i += 1;
    }
    assert(outputs@.take(outputs@.len() as int) == outputs@);
    out
}

/// What was read from the server for one pass: its controllers, its modes
/// by resolution, the state of each controller, and the size of the
/// framebuffer.
#[derive(Debug)]
pub struct Screen {
    pub crtcs: Vec<u32>,
    pub modes: ModeIndex,
    pub crtc_infos: Vec<(u32, CrtcInfo)>,
    pub size: Mode,
}

/// What a pass has worked out so far.
pub struct Progress {
    pub given: Seq<u32>,
    pub free: Seq<u32>,
    pub enables: Seq<CrtcRequest>,
    pub mm_width: u32,
    pub mm_height: u32,
}

/// What a pass sends: whether anything, the steps in order, and the
/// physical size to give with each new size of the framebuffer.
#[derive(Debug, PartialEq, Eq)]
pub struct Commit {
    pub changed: bool,
    pub steps: Vec<Step>,
    pub mm_width: u32,
    pub mm_height: u32,
}

/// The index of the first state at or after `from` that is of `crtc`.
pub open spec fn info_at(infos: Seq<(u32, CrtcInfo)>, crtc: u32, from: int) -> Option<int>
    decreases infos.len() - from,
{
    if from < 0 || from >= infos.len() {
        None
    } else if infos[from].0 == crtc {
        Some(from)
    } else {
        info_at(infos, crtc, from + 1)
    }
}

impl Screen {
    /// The state of the controller was read.
    pub open spec fn knows(self, crtc: u32) -> bool {
        info_at(self.crtc_infos@, crtc, 0).is_some()
    }

    /// The state of the controller.
    pub open spec fn info_of(self, crtc: u32) -> CrtcInfo {
        self.crtc_infos@[info_at(self.crtc_infos@, crtc, 0).unwrap()].1
    }

    /// The state was read of every controller that a pass over `setup` can
    /// give to an output or disable: each that the server lists, and each
    /// that drives a configured output.
    pub open spec fn describes(self, setup: Seq<Configured>) -> bool {
        &&& forall|c: u32| self.crtcs@.contains(c) ==> #[trigger] self.knows(c)
        &&& forall|i: int|
            0 <= i < setup.len() && (#[trigger] setup[i]).info.crtc != 0 ==> self.knows(setup[i].info.crtc)
    }

    /// Where a pass starts: every controller free, nothing to send.
    pub open spec fn start(self) -> Progress {
        Progress { given: Seq::empty(), free: distinct(self.crtcs@), enables: Seq::empty(), mm_width: 0, mm_height: 0 }
    }

    fn has_info(&self, crtc: u32) -> (r: bool)
        ensures
            r == self.knows(crtc),
    {
        let mut i: usize = 0;
        while i < self.crtc_infos.len()
            invariant
                0 <= i <= self.crtc_infos@.len(),
                info_at(self.crtc_infos@, crtc, 0) == info_at(self.crtc_infos@, crtc, i as int),
            decreases self.crtc_infos@.len() - i,
        {
            if self.crtc_infos[i].0 == crtc {
                return true;
            }
            i += 1;
        }
        false
    }

    /// Tests whether the state was read of every controller that a pass
    /// over `setup` can need.
    pub fn is_complete_for(&self, setup: &Vec<Configured>) -> (r: bool)
        ensures
            r == self.describes(setup@),
    {
        let mut i: usize = 0;
        while i < self.crtcs.len()
            invariant
                0 <= i <= self.crtcs@.len(),
                forall|k: int| 0 <= k < i ==> self.knows(#[trigger] self.crtcs@[k]),
            decreases self.crtcs@.len() - i,
        {
            if !self.has_info(self.crtcs[i]) {
                assert(self.crtcs@.contains(self.crtcs@[i as int]));
                return false;
            }
            i += 1;
        }
        let mut j: usize = 0;
        while j < setup.len()
            invariant
                0 <= j <= setup@.len(),
                forall|c: u32| self.crtcs@.contains(c) ==> #[trigger] self.knows(c),
                forall|k: int|
                    0 <= k < j && (#[trigger] setup@[k]).info.crtc != 0 ==> self.knows(setup@[k].info.crtc),
            decreases setup@.len() - j,
        {
            let bound = setup[j].info.crtc;
            if bound != 0 && !self.has_info(bound) {
                return false;
            }
            j += 1;
        }
        true
    }

    /// The state of a controller whose state was read.
    pub fn crtc_info(&self, crtc: u32) -> (r: &CrtcInfo)
        requires
            self.knows(crtc),
        ensures
            *r == self.info_of(crtc),
    {
        let mut i: usize = 0;
        while i < self.crtc_infos.len()
            invariant
                0 <= i <= self.crtc_infos@.len(),
                info_at(self.crtc_infos@, crtc, 0) == info_at(self.crtc_infos@, crtc, i as int),
                self.knows(crtc),
            decreases self.crtc_infos@.len() - i,
        {
            if self.crtc_infos[i].0 == crtc {
                return &self.crtc_infos[i].1;
            }
            i += 1;
        }
        vstd::pervasive::unreached()
    }
}

/// The controllers whose state a pass over `setup` can need, after the
/// first `n` configured outputs were looked at: those that the server
/// lists, then each that drives one of these outputs, each once.
pub open spec fn to_read(crtcs: Seq<u32>, setup: Seq<Configured>, n: int) -> Seq<u32>
    decreases n,
{
    if n <= 0 || n > setup.len() {
        distinct(crtcs)
    } else {
        let head = to_read(crtcs, setup, n - 1);
        let bound = setup[n - 1].info.crtc;
        if bound == 0 || head.contains(bound) {
            head
        } else {
            head.push(bound)
        }
    }
}

/// Lists the controllers whose state is to be read for a pass over `setup`.
pub fn crtcs_to_read(crtcs: &Vec<u32>, setup: &Vec<Configured>) -> (r: Vec<u32>)
    ensures
        r@ == to_read(crtcs@, setup@, setup@.len() as int),
{
    let mut out = FreePool::new(crtcs).crtcs;
    let mut n: usize = 0;
    while n < setup.len()
        invariant
            0 <= n <= setup@.len(),
            out@ == to_read(crtcs@, setup@, n as int),
        decreases setup@.len() - n,
    {
        let bound = setup[n].info.crtc;
        if bound != 0 && !holds(&out, bound) {
            out.push(bound);
        }
        n += 1;
    }
    out
}

/// What `info_at` finds: a state of the controller, and nothing only where
/// none was read.
pub proof fn lemma_info_at(infos: Seq<(u32, CrtcInfo)>, crtc: u32, from: int)
    requires
        0 <= from,
    ensures
        match info_at(infos, crtc, from) {
            Some(i) => from <= i < infos.len() && infos[i].0 == crtc,
            None => forall|j: int| from <= j < infos.len() ==> (#[trigger] infos[j]).0 != crtc,
        },
    decreases infos.len() - from,
{
    if from < infos.len() && infos[from].0 != crtc {
        lemma_info_at(infos, crtc, from + 1);
    }
}

/// The list of controllers to read holds every controller that the server
/// lists and every one that drives one of the outputs looked at.
pub proof fn lemma_to_read(crtcs: Seq<u32>, setup: Seq<Configured>, n: int)
    requires
        0 <= n <= setup.len(),
    ensures
        forall|c: u32| crtcs.contains(c) ==> #[trigger] to_read(crtcs, setup, n).contains(c),
        forall|i: int|
            0 <= i < n && (#[trigger] setup[i]).info.crtc != 0 ==> to_read(crtcs, setup, n).contains(
                setup[i].info.crtc,
            ),
    decreases n,
{
    if n == 0 {
        lemma_distinct(crtcs);
    } else {
        lemma_to_read(crtcs, setup, n - 1);
        let head = to_read(crtcs, setup, n - 1);
        let bound = setup[n - 1].info.crtc;
        assert forall|c: u32| head.contains(c) implies #[trigger] to_read(crtcs, setup, n).contains(c) by {
            lemma_push_contains(head, bound, c);
        }
        lemma_push_contains(head, bound, bound);
    }
}

/// Where the state of every controller on the list to read was read, the
/// screen is complete for a pass over `setup`.
pub proof fn lemma_read_is_complete(screen: Screen, setup: Seq<Configured>)
    requires
        forall|c: u32|
            to_read(screen.crtcs@, setup, setup.len() as int).contains(c) ==> exists|i: int|
                0 <= i < screen.crtc_infos@.len() && (#[trigger] screen.crtc_infos@[i]).0 == c,
    ensures
        screen.describes(setup),
{
    lemma_to_read(screen.crtcs@, setup, setup.len() as int);
    assert forall|c: u32| to_read(screen.crtcs@, setup, setup.len() as int).contains(c) implies screen.knows(
        c,
    ) by {
        lemma_info_at(screen.crtc_infos@, c, 0);
    }
}

/// Serving one configured output: its mode is resolved, it is given a
/// controller, which joins those given and leaves the pool, its physical
/// size is added (wrapping) to the sums, and the request it needs, if any,
/// joins the queue.
pub open spec fn serve_one(screen: Screen, item: Configured, p: Progress) -> Result<Progress, Error> {
    match screen.modes.resolve(item.info.modes@, item.conf.mode) {
        Err(e) => Err(e),
        Ok(mode) => match allocation(item.info.crtc, item.info.crtcs@, p.free) {
            None => Err(Error::NoCrtc(item.conf.name)),
            Some(c) => Ok(
                Progress {
                    given: p.given.push(c),
                    free: without(p.free, c),
                    enables: match enable_spec(item.output, item.conf, mode, c, item.info.crtc, screen.info_of(c)) {
                        Some(request) => p.enables.push(request),
                        None => p.enables,
                    },
                    mm_width: p.mm_width.wrapping_add(item.info.mm_width),
                    mm_height: p.mm_height.wrapping_add(item.info.mm_height),
                },
            ),
        },
    }
}

/// Serving the configured outputs from `from` on, in order; the first
/// failure ends the pass.
pub open spec fn serve(screen: Screen, setup: Seq<Configured>, from: int, p: Progress) -> Result<Progress, Error>
    decreases setup.len() - from,
{
    if from < 0 || from >= setup.len() {
        Ok(p)
    } else {
        match serve_one(screen, setup[from], p) {
            Err(e) => Err(e),
            Ok(q) => serve(screen, setup, from + 1, q),
        }
    }
}

/// The requests that disable those of the first `n` controllers left free
/// that are not idle, in order.
pub open spec fn leftover(screen: Screen, free: Seq<u32>, n: int) -> Seq<CrtcRequest>
    decreases n,
{
    if n <= 0 || n > free.len() {
        Seq::empty()
    } else {
        let head = leftover(screen, free, n - 1);
        match disable_spec(free[n - 1], screen.info_of(free[n - 1])) {
            Some(request) => head.push(request),
            None => head,
        }
    }
}

/// Plans one pass. Each configured output, in order, has its mode resolved
/// and is given a controller; the first that cannot be served fails the
/// pass. Controllers left free that are not idle are disabled. Nothing is
/// sent exactly where no controller needs a request and the framebuffer
/// has the target size; otherwise the steps come in the order of `steps_of`.
pub fn apply_config(screen: &Screen, fb_size: &Mode, setup: &Vec<Configured>) -> (r: Result<Commit, Error>)
    requires
        screen.describes(setup@),
    ensures
        match serve(*screen, setup@, 0, screen.start()) {
            Err(e) => r == Err::<Commit, Error>(e),
            Ok(p) => r.is_ok() && ({
                let commit = r.unwrap();
                let disables = leftover(*screen, p.free, p.free.len() as int);
                &&& commit.changed == !unchanged(disables, p.enables, screen.size, *fb_size)
                &&& step_views(commit.steps@) == steps_of(disables, p.enables, screen.size, *fb_size)
                &&& commit.mm_width == p.mm_width
                &&& commit.mm_height == p.mm_height
            }),
        },
{
    let mut free = FreePool::new(&screen.crtcs);
    let mut enables: Vec<CrtcRequest> = Vec::new();
    let mut mm_w: u32 = 0;
    let mut mm_h: u32 = 0;
    let mut n: usize = 0;
    let ghost mut given: Seq<u32> = Seq::empty();
    proof {
        lemma_distinct(screen.crtcs@);
    }
    while n < setup.len()
        invariant
            0 <= n <= setup@.len(),
            screen.describes(setup@),
            free.wf(),
            forall|c: u32| free@.contains(c) ==> screen.crtcs@.contains(c),
            serve(*screen, setup@, 0, screen.start()) == serve(
                *screen,
                setup@,
                n as int,
                Progress { given, free: free@, enables: enables@, mm_width: mm_w, mm_height: mm_h },
            ),
        decreases setup@.len() - n,
    {
        let item = &setup[n];
        let ghost before = free@;
        let mode = match find_mode_id(&item.info, &screen.modes, &item.conf.mode) {
            Ok(mode) => mode,
            Err(e) => {
                return Err(e);
            },
        };
        let dest = match allocate_crtc(&item.info, &mut free) {
            Some(dest) => dest,
            None => {
                return Err(Error::NoCrtc(item.conf.name.clone()));
            },
        };
        proof {
            lemma_first_in(item.info.crtcs@, before, 0);
            lemma_without(before, dest);
            assert(screen.knows(dest));
            given = given.push(dest);
        }
        mm_w = mm_w.wrapping_add(item.info.mm_width);
        mm_h = mm_h.wrapping_add(item.info.mm_height);
        let info = screen.crtc_info(dest);
        match enable_request(item.output, &item.conf, mode, dest, item.info.crtc, info) {
            Some(request) => {
                enables.push(request);
            },
            None => {},
        }
        n += 1;
    }
    let mut disables: Vec<CrtcRequest> = Vec::new();
    let mut k: usize = 0;
    while k < free.crtcs.len()
        invariant
            0 <= k <= free@.len(),
            forall|c: u32| free@.contains(c) ==> screen.crtcs@.contains(c),
            forall|c: u32| screen.crtcs@.contains(c) ==> #[trigger] screen.knows(c),
            disables@ == leftover(*screen, free@, k as int),
        decreases free@.len() - k,
    {
        let crtc = free.crtcs[k];
        assert(free@.contains(crtc));
        let info = screen.crtc_info(crtc);
        match disable_request(crtc, info) {
            Some(request) => {
                disables.push(request);
            },
            None => {},
        }
        k += 1;
    }
    let (changed, steps) = commit_steps(disables, enables, screen.size, fb_size);
    Ok(Commit { changed, steps, mm_width: mm_w, mm_height: mm_h })
}

} // verus!
