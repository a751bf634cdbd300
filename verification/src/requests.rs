//! The requests that reconfigure or disable a controller.

use vstd::prelude::*;
use crate::config::MonConfig;
use crate::server::{CrtcInfo, CrtcRequest};

verus! {


/// The request that disables a controller, and the base of every other
/// request for it: its position and rotation stay, its time stamps are that
/// of its current state, and it has no mode and no output.
pub open spec fn disabled(crtc: u32, from: CrtcInfo) -> CrtcRequest {
    CrtcRequest {
        crtc,
        timestamp: from.timestamp,
        config_timestamp: from.timestamp,
        x: from.x,
        y: from.y,
        mode: 0,
        rotation: from.rotation,
        output: None,
    }
}

/// The output is driven by this controller already, and the controller
/// shows the wanted mode at the wanted position.
pub open spec fn settled(conf: MonConfig, mode: u32, crtc: u32, bound: u32, info: CrtcInfo) -> bool {
    bound == crtc && conf.position.x == info.x && conf.position.y == info.y && mode == info.mode
}

/// The request that makes a controller drive an output as configured,
/// unrotated.
pub open spec fn enabled(output: u32, conf: MonConfig, mode: u32, crtc: u32, info: CrtcInfo) -> CrtcRequest {
    CrtcRequest {
        crtc,
        timestamp: info.timestamp,
        config_timestamp: info.timestamp,
        x: conf.position.x,
        y: conf.position.y,
        mode,
        rotation: 1,
        output: Some(output),
    }
}

/// The request that an output needs, if any.
pub open spec fn enable_spec(
    output: u32,
    conf: MonConfig,
    mode: u32,
    crtc: u32,
    bound: u32,
    info: CrtcInfo,
) -> Option<CrtcRequest> {
    if settled(conf, mode, crtc, bound, info) {
        None
    } else {
        Some(enabled(output, conf, mode, crtc, info))
    }
}

/// The controller drives nothing and has no mode.
pub open spec fn idle(info: CrtcInfo) -> bool {
    info.outputs@.len() == 0 && info.mode == 0
}

/// The request that a controller needs that no output was given, if any.
pub open spec fn disable_spec(crtc: u32, info: CrtcInfo) -> Option<CrtcRequest> {
    if idle(info) {
        None
    } else {
        Some(disabled(crtc, info))
    }
}

/// Builds the request that disables a controller.
pub fn disable_crtc(crtc: u32, from: &CrtcInfo) -> (r: CrtcRequest)
    ensures
        r == disabled(crtc, *from),
{
    CrtcRequest {
        crtc,
        timestamp: from.timestamp,
        config_timestamp: from.timestamp,
        x: from.x,
        y: from.y,
        mode: 0,
        rotation: from.rotation,
        output: None,
    }
}

/// Builds the request that makes `crtc` drive `output` in `mode` at the
/// configured position; none where `bound`, the controller that drives the
/// output now, is `crtc` and shows that mode at that position already.
pub fn enable_request(
    output: u32,
    conf: &MonConfig,
    mode: u32,
    crtc: u32,
    bound: u32,
    info: &CrtcInfo,
) -> (r: Option<CrtcRequest>)
    ensures
        r == enable_spec(output, *conf, mode, crtc, bound, *info),
{
    if bound != crtc || conf.position.x != info.x || conf.position.y != info.y || mode != info.mode {
        let base = disable_crtc(crtc, info);
        Some(
            CrtcRequest {
                crtc: base.crtc,
                timestamp: base.timestamp,
                config_timestamp: base.config_timestamp,
                x: conf.position.x,
                y: conf.position.y,
                mode,
                rotation: 1,
                output: Some(output),
            },
        )
    } else {
        None
    }
}

/// Builds the request that disables a controller which was given to no
/// output; none where the controller is idle already.
pub fn disable_request(crtc: u32, info: &CrtcInfo) -> (r: Option<CrtcRequest>)
    ensures
        r == disable_spec(crtc, *info),
{
    if info.outputs.len() != 0 || info.mode != 0 {
        Some(disable_crtc(crtc, info))
    } else {
        None
    }
}

} // verus!
