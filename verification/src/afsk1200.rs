//! AFSK1200 (Bell 202 / AX.25 packet): the HDLC flag preamble sent ahead of
//! a frame.
use vstd::prelude::*;

verus! {

/// The HDLC flag byte.
pub const HDLC_FLAG: u8 = 0x7e;

/// Bit `k` of a run of flags, each sent least significant bit first.
pub open spec fn flag_bit(k: int) -> u8 {
    (HDLC_FLAG >> ((k % 8) as u8)) & 1
}

/// `n` HDLC flags (0x7E) as a bit stream, each least significant bit first.
pub fn preamble_bits(n: usize) -> (bits: Vec<u8>)
    requires
        n * 8 <= usize::MAX,
    ensures
        bits@.len() == 8 * n,
        forall|k: int| 0 <= k < bits@.len() ==> #[trigger] bits@[k] == flag_bit(k),
{
    let mut bits: Vec<u8> = Vec::with_capacity(n * 8);
    for j in 0..n
        invariant
            bits@.len() == 8 * j,
            forall|k: int| 0 <= k < bits@.len() ==> #[trigger] bits@[k] == flag_bit(k),
    {
        for i in 0..8
            invariant
                j < n,
                bits@.len() == 8 * j + i,
                forall|k: int| 0 <= k < bits@.len() ==> #[trigger] bits@[k] == flag_bit(k),
        {
            bits.push((0x7Eu8 >> i) & 1);
            proof {
                vstd::arithmetic::div_mod::lemma_mod_multiples_vanish(j as int, i as int, 8);
            }
        }
    }
    bits
}

} // verus!
