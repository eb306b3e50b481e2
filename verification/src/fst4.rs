//! FST4 / FST4W (LF/MF weak signal): the 160-tone 4-GFSK frame assembled from
//! an LDPC(240,101) codeword.
use vstd::prelude::*;

verus! {

/// Total tones: 40 sync + 120 data.
pub const FST4_NN: usize = 160;

/// Data symbols.
pub const FST4_ND: usize = 120;

/// The two 8-tone FST4 sync words.
pub const FST4_SYNC1: [u8; 8] = [0, 1, 3, 2, 1, 0, 2, 3];

pub const FST4_SYNC2: [u8; 8] = [2, 3, 1, 0, 3, 2, 0, 1];

/// The 2-bit value of data symbol `i`: codeword bit `2i` is the high bit.
pub open spec fn fst4_pair(cw: Seq<u8>, i: int) -> int {
    cw[2 * i + 1] + 2 * cw[2 * i]
}

/// The Gray map of a bit pair: 00→0, 01→1, 11→2, 10→3.
pub open spec fn fst4_gray(is: int) -> int {
    if is == 2 {
        3
    } else if is == 3 {
        2
    } else {
        is
    }
}

/// Tone `p` of the frame `s8 d30 s8 d30 s8 d30 s8 d30 s8`, sync words 1, 2,
/// 1, 2, 1.
pub open spec fn fst4_frame(cw: Seq<u8>, p: int) -> int {
    let block = p / 38;
    let off = p % 38;
    if p >= 152 {
        FST4_SYNC1@[p - 152] as int
    } else if off < 8 {
        if block % 2 == 0 {
            FST4_SYNC1@[off] as int
        } else {
            FST4_SYNC2@[off] as int
        }
    } else {
        fst4_gray(fst4_pair(cw, 30 * block + off - 8))
    }
}

/// Assemble the 160-tone FST4 frame (tone indices 0..3) from the 240-bit
/// LDPC codeword: Gray-map bit pairs and interleave four 30-symbol data
/// blocks between five sync words. Every bit pair must be a 2-bit value.
pub fn fst4_tones_from_codeword(cw: &[u8; 240]) -> (t: [u8; 160])
    requires
        forall|i: int| 0 <= i < 120 ==> #[trigger] fst4_pair(cw@, i) <= 3,
    ensures
        forall|p: int| 0 <= p < 160 ==> t@[p] as int == #[trigger] fst4_frame(cw@, p),
{
    let mut d = [0u8; 120];
    for i in 0..120
        invariant
            forall|k: int| 0 <= k < 120 ==> #[trigger] fst4_pair(cw@, k) <= 3,
            forall|k: int| 0 <= k < i ==> d@[k] as int == fst4_gray(fst4_pair(cw@, k)),
    {
        assert(fst4_pair(cw@, i as int) <= 3);
        let is = cw[2 * i + 1] + 2 * cw[2 * i];
        d[i] = if is == 2 {
            3
        } else if is == 3 {
            2
        } else {
            is
        };
    }
    let s1 = FST4_SYNC1;
    let s2 = FST4_SYNC2;
    let mut t = [0u8; 160];
    for b in 0..5
        invariant
            s1@ == FST4_SYNC1@,
            s2@ == FST4_SYNC2@,
            forall|k: int| 0 <= k < 120 ==> d@[k] as int == fst4_gray(fst4_pair(cw@, k)),
            forall|p: int| 0 <= p < 38 * b && p < 160 ==> t@[p] as int == #[trigger] fst4_frame(cw@, p),
    {
        let base = 38 * b;
        for k in 0..8
            invariant
                s1@ == FST4_SYNC1@,
                s2@ == FST4_SYNC2@,
                b < 5,
                base == 38 * b,
                forall|p: int|
                    0 <= p < 38 * b && p < 160 ==> t@[p] as int == #[trigger] fst4_frame(cw@, p),
                forall|p: int| base <= p < base + k ==> t@[p] as int == #[trigger] fst4_frame(cw@, p),
        {
            t[base + k] = if b % 2 == 0 {
                s1[k]
            } else {
                s2[k]
            };
            assert((base + k) / 38 == b && (base + k) % 38 == k) by (nonlinear_arith)
                requires
                    base == 38 * b,
                    k < 8,
            ;
        }
        if b < 4 {
            for k in 0..30
                invariant
                    s1@ == FST4_SYNC1@,
                    b < 4,
                    base == 38 * b,
                    forall|kk: int| 0 <= kk < 120 ==> d@[kk] as int == fst4_gray(fst4_pair(cw@, kk)),
                    forall|p: int|
                        0 <= p < base + 8 + k ==> t@[p] as int == #[trigger] fst4_frame(cw@, p),
            {
                t[base + 8 + k] = d[30 * b + k];
                assert((base + 8 + k) / 38 == b && (base + 8 + k) % 38 == k + 8) by (nonlinear_arith)
                    requires
                        base == 38 * b,
                        k < 30,
                ;
            }
        }
    }
    t
}

} // verus!
