//! Why a synchronization pass can fail before anything is sent.

use vstd::prelude::*;
use crate::config::Mode;

verus! {

#[derive(Debug, PartialEq, Eq)]
pub enum Error {
    /// No mode that the server knows has this resolution.
    ModeNotFound(Mode),
    /// The server knows modes of this resolution, but the output supports none of them.
    ModeNotSupported(Mode),
    /// No controller is left for the monitor of this name.
    NoCrtc(String),
}

} // verus!
