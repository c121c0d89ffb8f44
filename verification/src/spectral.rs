//! Configuration of the spectral noise-reduction stage of the audio NR
//! chain. The stage itself works on floating-point spectra and lives with
//! the runtime.
use vstd::prelude::*;

verus! {

/// Spectral noise-reduction algorithm.
#[derive(Debug, Clone, Copy, PartialEq, Eq, Structural)]
pub enum SpectralMethod {
    /// Boll (1979) spectral subtraction.
    Boll,
    /// Log-spectral-amplitude MMSE (Ephraim and Malah).
    MmseLsa,
}

impl Default for SpectralMethod {
    fn default() -> (m: SpectralMethod)
        ensures
            m == SpectralMethod::Boll,
    {
        SpectralMethod::Boll
    }
}

} // verus!
