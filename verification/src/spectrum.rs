//! Spectrum display setup: the FFT size a requested size rounds to.
use vstd::prelude::*;

verus! {

pub const DEFAULT_FFT_SIZE: u32 = 2048;

pub const MIN_FFT_SIZE: u32 = 64;

pub const MAX_FFT_SIZE: u32 = 16384;

/// Whether `n` is a power of two.
pub open spec fn is_pow2(n: int) -> bool
    decreases n,
{
    if n <= 0 {
        false
    } else if n == 1 {
        true
    } else {
        n % 2 == 0 && is_pow2(n / 2)
    }
}

proof fn lemma_pow2_gap(p: int, m: int)
    requires
        is_pow2(p),
        is_pow2(m),
        p < m,
    ensures
        2 * p <= m,
    decreases p,
{
    if p > 1 {
        lemma_pow2_gap(p / 2, m / 2);
    }
}

/// The requested FFT size (the default for 0) clamped to 64..16384.
pub open spec fn clamped_fft_size(fft_size: u32) -> int {
    let req = if fft_size == 0 {
        DEFAULT_FFT_SIZE as int
    } else {
        fft_size as int
    };
    if req < MIN_FFT_SIZE {
        MIN_FFT_SIZE as int
    } else if req > MAX_FFT_SIZE {
        MAX_FFT_SIZE as int
    } else {
        req
    }
}

/// The FFT size for a request: the default for 0, clamped to 64..16384,
/// then rounded up to the next power of two.
pub fn round_fft_size(fft_size: u32) -> (r: usize)
    ensures
        is_pow2(r as int),
        r >= clamped_fft_size(fft_size),
        r / 2 < clamped_fft_size(fft_size),
{
    let req = if fft_size == 0 {
        DEFAULT_FFT_SIZE
    } else {
        fft_size
    };
    let n = if req < MIN_FFT_SIZE {
        MIN_FFT_SIZE
    } else if req > MAX_FFT_SIZE {
        MAX_FFT_SIZE
    } else {
        req
    };
    let mut p: u32 = 1;
    while p < n
        invariant
            is_pow2(p as int),
            1 <= p,
            p / 2 < n,
            n <= 16384,
            p <= 16384,
        decreases 16384 - p,
    {
        proof {
            assert(is_pow2(16384)) by {
                reveal_with_fuel(is_pow2, 16);
            }
            lemma_pow2_gap(p as int, 16384);
        }
        assert(is_pow2((p * 2) as int)) by {
            assert((p * 2) as int / 2 == p as int);
        }
        p = p * 2;
    }
    p as usize
}

} // verus!
