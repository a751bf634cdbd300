//! Matching attached monitors to display profiles, and planning the
//! controller requests that realise the matched profile.

pub mod batch;
pub mod commit;
pub mod config;
pub mod control;
pub mod crtc;
pub mod error;
pub mod identity;
pub mod matcher;
pub mod modes;
pub mod pass;
pub mod requests;
pub mod search;
pub mod server;
pub mod settled;
