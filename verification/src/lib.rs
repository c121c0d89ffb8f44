//! Verified core of the ferrite DSP block library: block descriptors,
//! event-stream plumbing, ring buffers, decoders' state machines and the
//! text/wire formats the blocks exchange.
use vstd::prelude::*;

pub mod aprs;
pub mod audio_ring;
pub mod audio_sink;
pub mod block;
pub mod event_store;
pub mod dtmf;
pub mod dtmf_sequencer;
pub mod events_sink;
pub mod fft;
pub mod files;
pub mod frame;
pub mod ft8;
pub mod lines;
pub mod pow2;
pub mod rates;
pub mod replay;
pub mod spectral;
pub mod spots;
pub mod text;

verus! {

/// Crate version string, as declared for the package.
pub fn version() -> (v: &'static str)
    ensures
        v@ == seq!['0', '.', '1', '.', '0'],
{
    proof {
        reveal_strlit("0.1.0");
    }
    assert("0.1.0"@ =~= seq!['0', '.', '1', '.', '0']);
    "0.1.0"
}

} // verus!
