//! Laws of a pass: a screen that shows the profile is left alone, a second
//! pass sends nothing, and no controller is given twice.

use vstd::prelude::*;
use crate::commit::{steps_of, unchanged};
use crate::config::{Mode, MonConfig};
use crate::crtc::{allocation, distinct, lemma_distinct, lemma_without};
use crate::error::Error;
use crate::pass::{leftover, serve, serve_one, Configured, Progress, Screen};
use crate::requests::{enable_spec, enabled, idle, settled};
use crate::search::lemma_first_in;
use crate::server::CrtcInfo;

verus! {

/// The output is driven by a controller that shows the wanted mode at the
/// wanted position.
pub open spec fn shown(screen: Screen, item: Configured) -> bool {
    item.info.crtc != 0 && match screen.modes.resolve(item.info.modes@, item.conf.mode) {
        Ok(mode) => settled(item.conf, mode, item.info.crtc, item.info.crtc, screen.info_of(item.info.crtc)),
        Err(_) => false,
    }
}

/// The controller drives one of the configured outputs from `from` on.
pub open spec fn drives_from(setup: Seq<Configured>, from: int, crtc: u32) -> bool {
    exists|j: int| from <= j < setup.len() && (#[trigger] setup[j]).info.crtc == crtc
}

/// The screen shows the profile already: the framebuffer has the target
/// size, every configured output is shown as wanted, and every controller
/// that drives none of them is idle.
pub open spec fn in_place(screen: Screen, setup: Seq<Configured>, fb_size: Mode) -> bool {
    &&& screen.size == fb_size
    &&& forall|i: int| 0 <= i < setup.len() ==> shown(screen, #[trigger] setup[i])
    &&& forall|c: u32|
        screen.crtcs@.contains(c) && !drives_from(setup, 0, c) ==> idle(#[trigger] screen.info_of(c))
}

proof fn lemma_serve_in_place(screen: Screen, setup: Seq<Configured>, from: int, p: Progress)
    requires
        0 <= from <= setup.len(),
        forall|i: int| 0 <= i < setup.len() ==> shown(screen, #[trigger] setup[i]),
        p.enables.len() == 0,
        p.free.no_duplicates(),
        forall|c: u32|
            p.free.contains(c) ==> idle(#[trigger] screen.info_of(c)) || drives_from(setup, from, c),
    ensures
        serve(screen, setup, from, p) is Ok,
        serve(screen, setup, from, p).unwrap().enables.len() == 0,
        forall|c: u32|
            serve(screen, setup, from, p).unwrap().free.contains(c) ==> idle(#[trigger] screen.info_of(c)),
    decreases setup.len() - from,
{
    if from < setup.len() {
        let item = setup[from];
        assert(shown(screen, item));
        let bound = item.info.crtc;
        let q = serve_one(screen, item, p).unwrap();
        lemma_without(p.free, bound);
        assert forall|c: u32| q.free.contains(c) implies idle(#[trigger] screen.info_of(c)) || drives_from(
            setup,
            from + 1,
            c,
        ) by {
            assert(p.free.contains(c) && c != bound);
            if !idle(screen.info_of(c)) {
                let j = choose|j: int| from <= j < setup.len() && (#[trigger] setup[j]).info.crtc == c;
                assert(from + 1 <= j < setup.len() && setup[j].info.crtc == c);
            }
        }
        lemma_serve_in_place(screen, setup, from + 1, q);
    }
}

proof fn lemma_leftover_idle(screen: Screen, free: Seq<u32>, n: int)
    requires
        0 <= n <= free.len(),
        forall|c: u32| free.contains(c) ==> idle(#[trigger] screen.info_of(c)),
    ensures
        leftover(screen, free, n).len() == 0,
    decreases n,
{
    if n > 0 {
        lemma_leftover_idle(screen, free, n - 1);
        assert(free.contains(free[n - 1]));
    }
}

/// A pass over a screen that shows the profile already sends nothing: no
/// controller is reconfigured, none is disabled, and no step is planned.
/// So a second pass after one whose requests were carried out, with nothing
/// else changed, writes nothing.
pub proof fn lemma_pass_in_place_sends_nothing(screen: Screen, setup: Seq<Configured>, fb_size: Mode)
    requires
        in_place(screen, setup, fb_size),
    ensures
        serve(screen, setup, 0, screen.start()) is Ok,
        ({
            let p = serve(screen, setup, 0, screen.start()).unwrap();
            let disables = leftover(screen, p.free, p.free.len() as int);
            &&& p.enables.len() == 0
            &&& disables.len() == 0
            &&& unchanged(disables, p.enables, screen.size, fb_size)
            &&& steps_of(disables, p.enables, screen.size, fb_size).len() == 0
        }),
{
    lemma_distinct(screen.crtcs@);
    lemma_serve_in_place(screen, setup, 0, screen.start());
    let p = serve(screen, setup, 0, screen.start()).unwrap();
    lemma_leftover_idle(screen, p.free, p.free.len() as int);
}

/// A controller that took up the request made for an output is settled
/// for that output: once it drives the output at the requested position in
/// the requested mode, the next pass makes no request for it.
pub proof fn lemma_request_settles(
    output: u32,
    conf: MonConfig,
    mode: u32,
    crtc: u32,
    before: CrtcInfo,
    after: CrtcInfo,
)
    requires
        after.x == enabled(output, conf, mode, crtc, before).x,
        after.y == enabled(output, conf, mode, crtc, before).y,
        after.mode == enabled(output, conf, mode, crtc, before).mode,
    ensures
        enable_spec(output, conf, mode, crtc, crtc, after).is_none(),
{
}

proof fn lemma_serve_distinct(screen: Screen, setup: Seq<Configured>, from: int, p: Progress)
    requires
        0 <= from <= setup.len(),
        forall|i: int| 0 <= i < setup.len() ==> (#[trigger] setup[i]).info.crtc == 0,
        p.given.no_duplicates(),
        p.free.no_duplicates(),
        forall|k: int| 0 <= k < p.given.len() ==> !p.free.contains(#[trigger] p.given[k]),
    ensures
        serve(screen, setup, from, p) is Ok ==> serve(screen, setup, from, p).unwrap().given.no_duplicates(),
    decreases setup.len() - from,
{
    if from < setup.len() {
        let item = setup[from];
        match serve_one(screen, item, p) {
            Ok(q) => {
                let c = allocation(item.info.crtc, item.info.crtcs@, p.free).unwrap();
                lemma_first_in(item.info.crtcs@, p.free, 0);
                lemma_without(p.free, c);
                assert(p.free.contains(c));
                assert forall|k: int| 0 <= k < q.given.len() implies !q.free.contains(#[trigger] q.given[k]) by {
                    if k < p.given.len() {
                        assert(q.given[k] == p.given[k]);
                    }
                }
                assert forall|a: int, b: int|
                    0 <= a < q.given.len() && 0 <= b < q.given.len() && a != b implies q.given[a] != q.given[b] by {
                    if a < p.given.len() && b < p.given.len() {
                        assert(p.given[a] != p.given[b]);
                    } else if a < p.given.len() {
                        assert(!p.free.contains(p.given[a]));
                    } else {
                        assert(!p.free.contains(p.given[b]));
                    }
                }
                lemma_serve_distinct(screen, setup, from + 1, q);
            },
            Err(_) => {},
        }
    }
}

/// In a pass over outputs none of which a controller drives yet, no
/// controller is given to two outputs.
pub proof fn lemma_pass_gives_each_once(screen: Screen, setup: Seq<Configured>)
    requires
        forall|i: int| 0 <= i < setup.len() ==> (#[trigger] setup[i]).info.crtc == 0,
    ensures
        serve(screen, setup, 0, screen.start()) is Ok ==> serve(
            screen,
            setup,
            0,
            screen.start(),
        ).unwrap().given.no_duplicates(),
{
    lemma_distinct(screen.crtcs@);
    lemma_serve_distinct(screen, setup, 0, screen.start());
}

proof fn lemma_serve_tracks(screen: Screen, setup: Seq<Configured>, from: int, p: Progress)
    requires
        0 <= from <= setup.len(),
        p.free.no_duplicates(),
        serve(screen, setup, from, p) is Ok,
    ensures
        ({
            let q = serve(screen, setup, from, p).unwrap();
            &&& q.given.len() == p.given.len() + setup.len() - from
            &&& forall|k: int| 0 <= k < p.given.len() ==> q.given[k] == p.given[k]
            &&& forall|i: int|
                from <= i < setup.len() ==> screen.modes.resolve(
                    (#[trigger] setup[i]).info.modes@,
                    setup[i].conf.mode,
                ) is Ok
            &&& forall|c: u32| p.free.contains(c) ==> q.free.contains(c) || q.given.contains(c)
        }),
    decreases setup.len() - from,
{
    if from < setup.len() {
        let item = setup[from];
        let next = serve_one(screen, item, p).unwrap();
        let c1 = allocation(item.info.crtc, item.info.crtcs@, p.free).unwrap();
        lemma_without(p.free, c1);
        lemma_serve_tracks(screen, setup, from + 1, next);
        let q = serve(screen, setup, from, p).unwrap();
        assert(next.given[p.given.len() as int] == c1);
        assert(q.given[p.given.len() as int] == c1);
        assert forall|k: int| 0 <= k < p.given.len() implies q.given[k] == p.given[k] by {
            assert(next.given[k] == p.given[k]);
        }
        assert forall|c: u32| p.free.contains(c) implies q.free.contains(c) || q.given.contains(c) by {
            if c != c1 {
                assert(next.free.contains(c));
            }
        }
    }
}

/// The server carried out what a pass wanted of one output: the output is
/// driven by the controller it was given, at the wanted position and in the
/// resolved mode; what it supports and what is wanted of it are as before.
pub open spec fn output_carried_out(
    screen: Screen,
    after: Screen,
    given: u32,
    was: Configured,
    now: Configured,
) -> bool {
    let state = after.info_of(given);
    &&& now.conf == was.conf
    &&& now.info.modes@ == was.info.modes@
    &&& given != 0
    &&& now.info.crtc == given
    &&& state.x == was.conf.position.x
    &&& state.y == was.conf.position.y
    &&& screen.modes.resolve(was.info.modes@, was.conf.mode) == Ok::<u32, Error>(state.mode)
}

/// The server carried out a pass: the framebuffer has the target size,
/// each configured output is driven by the controller it was given, at the
/// wanted position and in the resolved mode, and every controller that was
/// left free is idle. Nothing else of what a pass reads has changed.
pub open spec fn carried_out(
    screen: Screen,
    setup: Seq<Configured>,
    fb_size: Mode,
    after: Screen,
    after_setup: Seq<Configured>,
) -> bool {
    let p = serve(screen, setup, 0, screen.start()).unwrap();
    &&& serve(screen, setup, 0, screen.start()) is Ok
    &&& after.crtcs@ == screen.crtcs@
    &&& after.modes == screen.modes
    &&& after.size == fb_size
    &&& after_setup.len() == setup.len()
    &&& forall|i: int|
        0 <= i < setup.len() ==> #[trigger] output_carried_out(screen, after, p.given[i], setup[i], after_setup[i])
    &&& forall|c: u32| p.free.contains(c) ==> idle(#[trigger] after.info_of(c))
}

/// A second pass sends nothing: once the server has carried out a pass and
/// nothing else has changed, a pass for the same profile finds no
/// controller to reconfigure and none to disable, and plans no step.
pub proof fn lemma_second_pass_sends_nothing(
    screen: Screen,
    setup: Seq<Configured>,
    fb_size: Mode,
    after: Screen,
    after_setup: Seq<Configured>,
)
    requires
        carried_out(screen, setup, fb_size, after, after_setup),
    ensures
        in_place(after, after_setup, fb_size),
        serve(after, after_setup, 0, after.start()) is Ok,
        ({
            let p = serve(after, after_setup, 0, after.start()).unwrap();
            let disables = leftover(after, p.free, p.free.len() as int);
            steps_of(disables, p.enables, after.size, fb_size).len() == 0
        }),
{
    let p = serve(screen, setup, 0, screen.start()).unwrap();
    lemma_distinct(screen.crtcs@);
    lemma_serve_tracks(screen, setup, 0, screen.start());
    assert forall|i: int| 0 <= i < after_setup.len() implies shown(after, #[trigger] after_setup[i]) by {
        assert(output_carried_out(screen, after, p.given[i], setup[i], after_setup[i]));
    }
    assert forall|c: u32| after.crtcs@.contains(c) && !drives_from(after_setup, 0, c) implies idle(
        #[trigger] after.info_of(c),
    ) by {
        assert(distinct(screen.crtcs@).contains(c));
        if p.given.contains(c) {
            let k = choose|k: int| 0 <= k < p.given.len() && p.given[k] == c;
            assert(output_carried_out(screen, after, p.given[k], setup[k], after_setup[k]));
            assert(after_setup[k].info.crtc == c);
        }
    }
    lemma_pass_in_place_sends_nothing(after, after_setup, fb_size);
}

} // verus!
