//! Runtime core of a voice-clip instrument plugin.
//!
//! The library owns the verified logic of three components:
//! a request/response bridge pumping UI messages to workers and
//! responses back, a state store holding the phrase list, voice
//! clips and project blob, and a mixdown engine assembling the
//! scheduled clips into one mono buffer at the host sample rate.
//! The host glue (plugin registration, webview, dialogs, file I/O)
//! lives outside and talks to the library through plain values.

pub mod assets;
pub mod bridge;
pub mod codec;
pub mod dispatch;
pub mod mix;
pub mod models;
pub mod store;
pub mod wav;

use vstd::prelude::*;

verus! {

/// The project name the protocol reports to the UI.
pub fn project_name() -> (r: &'static str)
    ensures
        r@ == "VVVST"@,
{
    "VVVST"
}

} // verus!
