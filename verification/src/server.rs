//! What the display server reports and what is asked of it, as plain values.

use vstd::prelude::*;

verus! {

/// One mode that the server knows: its identifier and its resolution.
#[derive(Clone, Copy, Debug, PartialEq, Eq, Structural)]
pub struct ModeInfo {
    pub id: u32,
    pub width: u16,
    pub height: u16,
}

/// What the server reports of an output: the controller that drives it (0
/// for none), the controllers that could, the modes it supports and its
/// physical size in millimetres.
#[derive(Debug, PartialEq, Eq)]
pub struct OutputInfo {
    pub crtc: u32,
    pub crtcs: Vec<u32>,
    pub modes: Vec<u32>,
    pub mm_width: u32,
    pub mm_height: u32,
}

/// What the server reports of a controller.
#[derive(Debug, PartialEq, Eq)]
pub struct CrtcInfo {
    pub timestamp: u32,
    pub x: i16,
    pub y: i16,
    pub mode: u32,
    pub rotation: u16,
    pub outputs: Vec<u32>,
}

/// A request to set a controller's configuration: where it shows, in which
/// mode, and the output it drives. Mode 0 with no output disables the
/// controller.
#[derive(Clone, Copy, Debug, PartialEq, Eq, Structural)]
pub struct CrtcRequest {
    pub crtc: u32,
    pub timestamp: u32,
    pub config_timestamp: u32,
    pub x: i16,
    pub y: i16,
    pub mode: u32,
    pub rotation: u16,
    pub output: Option<u32>,
}

} // verus!
