//! JT65: 65-FSK (one sync tone and 64 data tones) with an RS(63,12) code over
//! GF(2⁶) and a 72-bit message. The 72 message bits travel as twelve six-bit
//! RS symbols, most significant bit first.
use vstd::prelude::*;

verus! {

pub const JT65_RATE: u32 = 11025;

/// Samples per symbol (about 2.69 baud).
pub const JT65_SPS: usize = 4096;

/// Tone 0 is sync, tones 1..64 carry data.
pub const JT65_TONES: u32 = 65;

/// 63 data symbols interleaved with 63 sync symbols.
pub const JT65_SYMBOLS: usize = 126;

/// The RS symbol packed from the first `j` bits of group `i`, most
/// significant bit first (only each byte's low bit counts).
pub open spec fn pack6(bits: Seq<u8>, i: int, j: int) -> u8
    decreases j,
{
    if j <= 0 {
        0
    } else {
        pack_step(pack6(bits, i, j - 1), bits[6 * i + j - 1])
    }
}

/// Pack 72 message bits (MSB first) into 12 six-bit RS symbols.
pub fn bits72_to_rs_symbols(bits: &[u8; 72]) -> (out: [u8; 12])
    ensures
        forall|i: int| 0 <= i < 12 ==> #[trigger] out@[i] == pack6(bits@, i, 6),
{
    let mut out = [0u8; 12];
    for i in 0..12
        invariant
            forall|k: int| 0 <= k < i ==> #[trigger] out@[k] == pack6(bits@, k, 6),
    {
        let mut s: u8 = 0;
        for j in 0..6
            invariant
                i < 12,
                s == pack6(bits@, i as int, j as int),
        {
            s = (s << 1) | (bits[i * 6 + j] & 1);
        }
        out[i] = s;
    }
    out
}

/// Bit `k` of the unpacked message: bit `5 - k % 6` of symbol `k / 6`.
pub open spec fn unpack_bit(syms: Seq<u8>, k: int) -> u8 {
    (syms[k / 6] >> ((5 - k % 6) as u8)) & 1
}

/// Unpack 12 six-bit RS symbols into 72 message bits, MSB first (the inverse
/// of [`bits72_to_rs_symbols`]).
pub fn rs_symbols_to_bits72(syms: &[u8; 12]) -> (out: [u8; 72])
    ensures
        forall|k: int| 0 <= k < 72 ==> #[trigger] out@[k] == unpack_bit(syms@, k),
{
    let mut out = [0u8; 72];
    for i in 0..12
        invariant
            forall|k: int| 0 <= k < 6 * i ==> #[trigger] out@[k] == unpack_bit(syms@, k),
    {
        let s = syms[i];
        for j in 0..6
            invariant
                i < 12,
                s == syms@[i as int],
                forall|k: int| 0 <= k < 6 * i + j ==> #[trigger] out@[k] == unpack_bit(syms@, k),
        {
            out[i * 6 + j] = (s >> (5 - j as u8)) & 1;
            assert((6 * i + j) / 6 == i && (6 * i + j) % 6 == j) by (nonlinear_arith)
                requires
                    j < 6,
            ;
        }
    }
    out
}

/// One packing step: shift left and bring in the low bit of `b`.
pub open spec fn pack_step(s: u8, b: u8) -> u8 {
    ((s << 1u8) | (b & 1)) as u8
}

proof fn lemma_pack6_bits(b0: u8, b1: u8, b2: u8, b3: u8, b4: u8, b5: u8, j: u8)
    requires
        j < 6,
    ensures
        (pack_step(
            pack_step(pack_step(pack_step(pack_step(pack_step(0, b0), b1), b2), b3), b4),
            b5,
        ) >> (5 - j) as u8) & 1 == (if j == 0 {
            b0
        } else if j == 1 {
            b1
        } else if j == 2 {
            b2
        } else if j == 3 {
            b3
        } else if j == 4 {
            b4
        } else {
            b5
        }) & 1,
{
    let s1 = pack_step(0, b0);
    let s2 = pack_step(s1, b1);
    let s3 = pack_step(s2, b2);
    let s4 = pack_step(s3, b3);
    let s5 = pack_step(s4, b4);
    let s6 = pack_step(s5, b5);
    let bj = if j == 0 {
        b0
    } else if j == 1 {
        b1
    } else if j == 2 {
        b2
    } else if j == 3 {
        b3
    } else if j == 4 {
        b4
    } else {
        b5
    };
    assert((s6 >> (5 - j) as u8) & 1 == bj & 1) by (bit_vector)
        requires
            j < 6,
            s1 == ((0u8 << 1u8) | (b0 & 1)) as u8,
            s2 == ((s1 << 1u8) | (b1 & 1)) as u8,
            s3 == ((s2 << 1u8) | (b2 & 1)) as u8,
            s4 == ((s3 << 1u8) | (b3 & 1)) as u8,
            s5 == ((s4 << 1u8) | (b4 & 1)) as u8,
            s6 == ((s5 << 1u8) | (b5 & 1)) as u8,
            bj == (if j == 0 {
                b0
            } else if j == 1 {
                b1
            } else if j == 2 {
                b2
            } else if j == 3 {
                b3
            } else if j == 4 {
                b4
            } else {
                b5
            }),
    ;
}

/// Packing 72 bits into RS symbols and unpacking them gives the bits back
/// (each bit's low bit).
pub proof fn lemma_bits_rs_symbols_round_trip(bits: Seq<u8>, syms: Seq<u8>)
    requires
        bits.len() == 72,
        syms.len() == 12,
        forall|i: int| 0 <= i < 12 ==> #[trigger] syms[i] == pack6(bits, i, 6),
    ensures
        forall|k: int| 0 <= k < 72 ==> #[trigger] unpack_bit(syms, k) == bits[k] & 1,
{
    assert forall|k: int| 0 <= k < 72 implies #[trigger] unpack_bit(syms, k) == bits[k] & 1 by {
        let i = k / 6;
        let j = k % 6;
        assert(0 <= i < 12 && k == 6 * i + j);
        assert(syms[i] == pack6(bits, i, 6));
        reveal_with_fuel(pack6, 7);
        assert(pack6(bits, i, 6) == pack_step(
            pack_step(
                pack_step(
                    pack_step(pack_step(pack_step(0, bits[6 * i]), bits[6 * i + 1]), bits[6 * i + 2]),
                    bits[6 * i + 3],
                ),
                bits[6 * i + 4],
            ),
            bits[6 * i + 5],
        ));
        lemma_pack6_bits(
            bits[6 * i],
            bits[6 * i + 1],
            bits[6 * i + 2],
            bits[6 * i + 3],
            bits[6 * i + 4],
            bits[6 * i + 5],
            j as u8,
        );
    }
}

} // verus!
