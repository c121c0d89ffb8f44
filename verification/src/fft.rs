//! Window selection of the FFT block.
use vstd::prelude::*;

verus! {

/// Window applied before the transform.
#[derive(Debug, Clone, Copy, PartialEq, Eq, Structural)]
pub enum FftWindow {
    /// No taper (all ones); its wire key is `none`.
    Rectangular,
    Hann,
    Hamming,
    Blackman,
}

/// Wire key of a window.
pub open spec fn window_key(w: FftWindow) -> Seq<char> {
    match w {
        FftWindow::Rectangular => seq!['n', 'o', 'n', 'e'],
        FftWindow::Hann => seq!['h', 'a', 'n', 'n'],
        FftWindow::Hamming => seq!['h', 'a', 'm', 'm', 'i', 'n', 'g'],
        FftWindow::Blackman => seq!['b', 'l', 'a', 'c', 'k', 'm', 'a', 'n'],
    }
}

impl FftWindow {
    /// The window named by `key` (`none`, `hann`, `hamming`,
    /// `blackman`); `None` for anything else.
    pub fn from_key(key: &str) -> (w: Option<FftWindow>)
        ensures
            w matches Some(x) ==> window_key(x) == key@,
            w is None ==> forall|x: FftWindow| window_key(x) != key@,
    {
        proof {
            reveal_strlit("none");
            reveal_strlit("hann");
            reveal_strlit("hamming");
            reveal_strlit("blackman");
            assert("none"@ =~= window_key(FftWindow::Rectangular));
            assert("hann"@ =~= window_key(FftWindow::Hann));
            assert("hamming"@ =~= window_key(FftWindow::Hamming));
            assert("blackman"@ =~= window_key(FftWindow::Blackman));
        }
        if crate::ft8::str_eq(key, "none") {
            Some(FftWindow::Rectangular)
        } else if crate::ft8::str_eq(key, "hann") {
            Some(FftWindow::Hann)
        } else if crate::ft8::str_eq(key, "hamming") {
            Some(FftWindow::Hamming)
        } else if crate::ft8::str_eq(key, "blackman") {
            Some(FftWindow::Blackman)
        } else {
            None
        }
    }
}

/// FFT sizes the block accepts: powers of two of at least 64.
pub fn valid_fft_size(size: usize) -> (ok: bool)
    ensures
        ok == (crate::pow2::is_pow2(size as nat) && size >= 64),
{
    crate::pow2::is_power_of_two(size) && size >= 64
}

/// FFT-shift: write the first `n` bins of `src` into `dst` with the DC bin
/// moved to the centre, `dst[k] = src[(k + n / 2) % n]`, so negative
/// frequencies come first. The rest of `dst` is left alone.
pub fn fft_shift_into<T: Copy>(src: &[T], dst: &mut [T], n: usize)
    requires
        n <= src@.len(),
        n <= old(dst)@.len(),
    ensures
        final(dst)@.len() == old(dst)@.len(),
        forall|k: int| 0 <= k < n ==> #[trigger] final(dst)@[k] == src@[(k + n / 2) % (n as int)],
        forall|k: int| n <= k < old(dst)@.len() ==> #[trigger] final(dst)@[k] == old(dst)@[k],
{
    let half = n / 2;
    let mut k: usize = 0;
    while k < n
        invariant
            n <= src@.len(),
            n <= dst@.len(),
            dst@.len() == old(dst)@.len(),
            half == n / 2,
            k <= n,
            forall|j: int| 0 <= j < k ==> #[trigger] dst@[j] == src@[(j + n / 2) % (n as int)],
            forall|j: int| n <= j < dst@.len() ==> #[trigger] dst@[j] == old(dst)@[j],
        decreases n - k,
    {
        let idx = if k < n - half {
            k + half
        } else {
            k - (n - half)
        };
        assert(idx == (k + n / 2) % (n as int)) by {
            if k < n - half {
                vstd::arithmetic::div_mod::lemma_small_mod((k + half) as nat, n as nat);
            } else {
                vstd::arithmetic::div_mod::lemma_mod_sub_multiples_vanish((k + half) as int, n as int);
                vstd::arithmetic::div_mod::lemma_small_mod((k + half - n) as nat, n as nat);
            }
        }
        dst[k] = src[idx];
        k = k + 1;
    }
}

/// How many of `available` input samples a partly filled window of
/// `filled` out of `size` takes.
pub fn window_take(size: usize, filled: usize, available: usize) -> (take: usize)
    requires
        filled <= size,
    ensures
        take == if size - filled < available {
            size - filled
        } else {
            available as int
        },
{
    let room = size - filled;
    if room < available {
        room
    } else {
        available
    }
}

} // verus!
