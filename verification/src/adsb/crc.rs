//! Mode S / ADS-B 24-bit CRC.
//!
//! Every Mode S downlink frame carries a 24-bit parity field in its trailing
//! three bytes: the remainder of the message polynomial times `x^24` divided by
//! the generator `0xFFF409` (ICAO Annex 10, Vol IV). A correctly received
//! extended squitter checksums to zero over all of its bytes.
//!
//! The model is the 24-bit division register that takes one message byte into
//! its top eight bits and shifts eight times ([`crc_byte`]); the executable
//! routine is the byte-table form of the same register.
use vstd::prelude::*;

verus! {

/// Mode S CRC generator polynomial (implicit `x^24` term omitted).
pub const GENERATOR_POLY: u32 = 0x00FF_F409;

/// The 24-bit register mask.
pub open spec fn mask24() -> u32 {
    0x00FF_FFFFu32
}

/// One division step: shift the register left by one, subtracting (XOR) the
/// generator when the bit leaving the top was set.
pub open spec fn shift1(c: u32) -> u32 {
    if c & 0x0080_0000u32 != 0 {
        ((c << 1u32) ^ 0x00FF_F409u32) & 0x00FF_FFFFu32
    } else {
        (c << 1u32) & 0x00FF_FFFFu32
    }
}

/// Eight division steps.
pub open spec fn shift8(c: u32) -> u32 {
    shift1(shift1(shift1(shift1(shift1(shift1(shift1(shift1(c))))))))
}

/// The register after taking in byte `b` on top of remainder `rem`.
pub open spec fn crc_byte(rem: u32, b: u8) -> u32 {
    shift8((rem ^ ((b as u32) << 16u32)) & 0x00FF_FFFFu32)
}

/// The Mode S checksum of `msg`: `msg(x) * x^24 mod g(x)`, bytes taken first
/// to last, each most significant bit first.
pub open spec fn crc(msg: Seq<u8>) -> u32
    decreases msg.len(),
{
    if msg.len() == 0 {
        0
    } else {
        crc_byte(crc(msg.drop_last()), msg.last())
    }
}

/// Entry `i` of the byte lookup table: the remainder of `i(x) * x^24`.
pub open spec fn table_entry(i: int) -> u32 {
    shift8(((i as u32) << 16u32) & 0x00FF_FFFFu32)
}

/// The frame of `nbytes` zero bytes but for bit `p` (0 = MSB of byte 0).
pub open spec fn unit_frame(p: int, nbytes: int) -> Seq<u8> {
    Seq::new(nbytes as nat, |k: int| if k == p / 8 { (1u8 << ((7 - p % 8) as u8)) as u8 } else { 0u8 })
}

/// The CRC syndrome of bit `p` in an `nbits`-bit frame.
pub open spec fn syndrome(p: int, nbits: int) -> u32 {
    crc(unit_frame(p, nbits / 8))
}

/// Bytewise XOR of two equally long messages.
pub open spec fn xor_seq(a: Seq<u8>, b: Seq<u8>) -> Seq<u8> {
    Seq::new(a.len(), |i: int| a[i] ^ b[i])
}

/// `msg` with bit `p` flipped.
pub open spec fn flip_bit(msg: Seq<u8>, p: int) -> Seq<u8> {
    msg.update(p / 8, msg[p / 8] ^ ((1u8 << ((7 - p % 8) as u8)) as u8))
}

/// A division step always leaves a 24-bit remainder.
proof fn lemma_shift1_bound(c: u32)
    ensures
        shift1(c) <= 0x00FF_FFFF,
{
    assert(shift1(c) <= 0x00FF_FFFF) by (bit_vector);
}

proof fn lemma_shift8_bound(c: u32)
    ensures
        shift8(c) <= 0x00FF_FFFF,
{
    lemma_shift1_bound(shift1(shift1(shift1(shift1(shift1(shift1(shift1(c))))))));
}

/// The register value is always a 24-bit remainder.
pub proof fn lemma_crc_bound(msg: Seq<u8>)
    ensures
        crc(msg) <= 0x00FF_FFFF,
    decreases msg.len(),
{
    if msg.len() > 0 {
        let r = crc(msg.drop_last());
        let b = msg.last();
        lemma_shift8_bound((r ^ ((b as u32) << 16u32)) & 0x00FF_FFFFu32);
    }
}

/// XOR and OR identities used across the parity proofs.
pub(crate) proof fn lemma_bit_identities(x: u32, y: u8)
    by (bit_vector)
    ensures
        0u32 & 0xFFFF80u32 == 0u32,
        0u32 & 0x7Fu32 == 0u32,
        x ^ x == 0u32,
        0u32 ^ 0u32 == 0u32,
        y ^ 0u8 == y,
        0u8 | y == y,
        0u32 ^ x == x,
        forall|z: u8| #[trigger] ((y ^ z) ^ z) == y,
{
}

/// A table seed `i << 16` fits in 24 bits.
proof fn lemma_table_seed(i: u32)
    by (bit_vector)
    requires
        i < 256,
    ensures
        i << 16u32 <= 0x00FF_FFFF,
        (i << 16u32) & 0x00FF_FFFFu32 == (i << 16u32),
{
}

/// A 24-bit value is unchanged by the 24-bit mask.
proof fn lemma_mask24(c: u32)
    by (bit_vector)
    requires
        c <= 0x00FF_FFFF,
    ensures
        c & 0x00FF_FFFFu32 == c,
{
}

/// A division step is linear over GF(2).
proof fn lemma_shift1_linear(a: u32, b: u32)
    requires
        a <= 0x00FF_FFFF,
        b <= 0x00FF_FFFF,
    ensures
        shift1(a ^ b) == shift1(a) ^ shift1(b),
        a ^ b <= 0x00FF_FFFF,
{
    assert(shift1(a ^ b) == shift1(a) ^ shift1(b) && a ^ b <= 0x00FF_FFFF) by (bit_vector)
        requires
            a <= 0x00FF_FFFF,
            b <= 0x00FF_FFFF,
    ;
}

proof fn lemma_shift8_linear(a: u32, b: u32)
    requires
        a <= 0x00FF_FFFF,
        b <= 0x00FF_FFFF,
    ensures
        shift8(a ^ b) == shift8(a) ^ shift8(b),
{
    let a1 = shift1(a);
    let b1 = shift1(b);
    let a2 = shift1(a1);
    let b2 = shift1(b1);
    let a3 = shift1(a2);
    let b3 = shift1(b2);
    let a4 = shift1(a3);
    let b4 = shift1(b3);
    let a5 = shift1(a4);
    let b5 = shift1(b4);
    let a6 = shift1(a5);
    let b6 = shift1(b5);
    let a7 = shift1(a6);
    let b7 = shift1(b6);
    lemma_shift1_linear(a, b);
    lemma_shift1_bound(a);
    lemma_shift1_bound(b);
    lemma_shift1_linear(a1, b1);
    lemma_shift1_bound(a1);
    lemma_shift1_bound(b1);
    lemma_shift1_linear(a2, b2);
    lemma_shift1_bound(a2);
    lemma_shift1_bound(b2);
    lemma_shift1_linear(a3, b3);
    lemma_shift1_bound(a3);
    lemma_shift1_bound(b3);
    lemma_shift1_linear(a4, b4);
    lemma_shift1_bound(a4);
    lemma_shift1_bound(b4);
    lemma_shift1_linear(a5, b5);
    lemma_shift1_bound(a5);
    lemma_shift1_bound(b5);
    lemma_shift1_linear(a6, b6);
    lemma_shift1_bound(a6);
    lemma_shift1_bound(b6);
    lemma_shift1_linear(a7, b7);
}

/// Below the top bit a division step is a plain shift.
proof fn lemma_shift1_low(z: u32)
    requires
        z < 0x0080_0000,
    ensures
        shift1(z) == z << 1u32,
{
    assert(shift1(z) == z << 1u32) by (bit_vector)
        requires
            z < 0x0080_0000,
    ;
}

/// Eight steps on a value below `2^16` only shift it.
proof fn lemma_shift8_low(z: u32)
    requires
        z < 0x0001_0000,
    ensures
        shift8(z) == z << 8u32,
{
    assert(z << 1u32 < 0x0080_0000 && (z << 1u32) << 1u32 < 0x0080_0000 && ((z << 1u32) << 1u32)
        << 1u32 < 0x0080_0000 && (((z << 1u32) << 1u32) << 1u32) << 1u32 < 0x0080_0000 && ((((z
        << 1u32) << 1u32) << 1u32) << 1u32) << 1u32 < 0x0080_0000 && (((((z << 1u32) << 1u32)
        << 1u32) << 1u32) << 1u32) << 1u32 < 0x0080_0000 && ((((((z << 1u32) << 1u32) << 1u32)
        << 1u32) << 1u32) << 1u32) << 1u32 < 0x0080_0000 && (((((((z << 1u32) << 1u32) << 1u32)
        << 1u32) << 1u32) << 1u32) << 1u32) << 1u32 == z << 8u32) by (bit_vector)
        requires
            z < 0x0001_0000,
    ;
    let z1 = z << 1u32;
    let z2 = z1 << 1u32;
    let z3 = z2 << 1u32;
    let z4 = z3 << 1u32;
    let z5 = z4 << 1u32;
    let z6 = z5 << 1u32;
    let z7 = z6 << 1u32;
    lemma_shift1_low(z);
    lemma_shift1_low(z1);
    lemma_shift1_low(z2);
    lemma_shift1_low(z3);
    lemma_shift1_low(z4);
    lemma_shift1_low(z5);
    lemma_shift1_low(z6);
    lemma_shift1_low(z7);
}

proof fn lemma_mask_shift(rem: u32, t: u32)
    requires
        rem <= 0x00FF_FFFF,
        t <= 0x00FF_FFFF,
    ensures
        ((rem << 8u32) ^ t) & 0x00FF_FFFFu32 == t ^ ((rem & 0xFFFFu32) << 8u32),
{
    assert(((rem << 8u32) ^ t) & 0x00FF_FFFFu32 == t ^ ((rem & 0xFFFFu32) << 8u32))
        by (bit_vector)
        requires
            rem <= 0x00FF_FFFF,
            t <= 0x00FF_FFFF,
    ;
}

/// The byte-table step computes the register step.
proof fn lemma_table_step(rem: u32, b: u8)
    requires
        rem <= 0x00FF_FFFF,
    ensures
        crc_byte(rem, b) == ((rem << 8u32) ^ table_entry((b ^ ((rem >> 16u32) as u8)) as int))
            & 0x00FF_FFFFu32,
{
    let i: u8 = b ^ ((rem >> 16u32) as u8);
    let hi: u32 = ((i as u32) << 16u32) & 0x00FF_FFFFu32;
    let lo: u32 = rem & 0xFFFFu32;
    assert((rem ^ ((b as u32) << 16u32)) & 0x00FF_FFFFu32 == hi ^ lo && hi <= 0x00FF_FFFF && lo
        < 0x0001_0000) by (bit_vector)
        requires
            rem <= 0x00FF_FFFF,
            i == b ^ ((rem >> 16u32) as u8),
            hi == ((i as u32) << 16u32) & 0x00FF_FFFFu32,
            lo == rem & 0xFFFFu32,
    ;
    lemma_shift8_bound(hi);
    lemma_shift8_linear(hi, lo);
    lemma_shift8_low(lo);
    lemma_mask_shift(rem, shift8(hi));
    assert(table_entry(i as int) == shift8(hi));
}

/// The register step is linear over GF(2).
proof fn lemma_crc_byte_linear(r1: u32, r2: u32, b1: u8, b2: u8)
    requires
        r1 <= 0x00FF_FFFF,
        r2 <= 0x00FF_FFFF,
    ensures
        crc_byte(r1 ^ r2, b1 ^ b2) == crc_byte(r1, b1) ^ crc_byte(r2, b2),
{
    let x1 = (r1 ^ ((b1 as u32) << 16u32)) & 0x00FF_FFFFu32;
    let x2 = (r2 ^ ((b2 as u32) << 16u32)) & 0x00FF_FFFFu32;
    assert(((r1 ^ r2) ^ (((b1 ^ b2) as u32) << 16u32)) & 0x00FF_FFFFu32 == x1 ^ x2 && x1
        <= 0x00FF_FFFF && x2 <= 0x00FF_FFFF) by (bit_vector)
        requires
            x1 == (r1 ^ ((b1 as u32) << 16u32)) & 0x00FF_FFFFu32,
            x2 == (r2 ^ ((b2 as u32) << 16u32)) & 0x00FF_FFFFu32,
    ;
    lemma_shift8_linear(x1, x2);
}

/// The checksum of a bytewise XOR is the XOR of the checksums.
pub proof fn lemma_crc_linear(a: Seq<u8>, b: Seq<u8>)
    requires
        a.len() == b.len(),
    ensures
        crc(xor_seq(a, b)) == crc(a) ^ crc(b),
    decreases a.len(),
{
    if a.len() == 0 {
        lemma_bit_identities(0, 0);
    } else {
        let x = xor_seq(a, b);
        assert(x.drop_last() =~= xor_seq(a.drop_last(), b.drop_last()));
        lemma_crc_linear(a.drop_last(), b.drop_last());
        lemma_crc_bound(a.drop_last());
        lemma_crc_bound(b.drop_last());
        lemma_crc_byte_linear(crc(a.drop_last()), crc(b.drop_last()), a.last(), b.last());
        assert(x.last() == a.last() ^ b.last());
        assert(crc(x) == crc_byte(crc(x.drop_last()), x.last()));
    }
}

/// Taking the top byte of a remainder into the register only shifts it.
proof fn lemma_own_byte(r: u32)
    requires
        r <= 0x00FF_FFFF,
    ensures
        crc_byte(r, (r >> 16u32) as u8) == (r & 0xFFFFu32) << 8u32,
        (r & 0xFFFFu32) << 8u32 <= 0x00FF_FFFF,
{
    let lo: u32 = r & 0xFFFFu32;
    assert((r ^ ((((r >> 16u32) as u8) as u32) << 16u32)) & 0x00FF_FFFFu32 == lo && lo
        < 0x0001_0000 && lo << 8u32 <= 0x00FF_FFFF) by (bit_vector)
        requires
            r <= 0x00FF_FFFF,
            lo == r & 0xFFFFu32,
    ;
    lemma_shift8_low(lo);
}

/// Taking a remainder's own three bytes into the register clears it.
proof fn lemma_parity_clears(r: u32)
    requires
        r <= 0x00FF_FFFF,
    ensures
        crc_byte(crc_byte(crc_byte(r, (r >> 16u32) as u8), (r >> 8u32) as u8), r as u8) == 0,
{
    lemma_own_byte(r);
    let r1 = (r & 0xFFFFu32) << 8u32;
    assert((r1 >> 16u32) as u8 == (r >> 8u32) as u8 && (r1 & 0xFFFFu32) << 8u32 == (r & 0xFFu32)
        << 16u32) by (bit_vector)
        requires
            r <= 0x00FF_FFFF,
            r1 == (r & 0xFFFFu32) << 8u32,
    ;
    lemma_own_byte(r1);
    let r2 = (r1 & 0xFFFFu32) << 8u32;
    assert((r2 >> 16u32) as u8 == r as u8 && (r2 & 0xFFFFu32) << 8u32 == 0) by (bit_vector)
        requires
            r2 == (r & 0xFFu32) << 16u32,
    ;
    lemma_own_byte(r2);
}

/// Build the 256-entry byte lookup table for the Mode S CRC.
pub fn build_table() -> (table: Vec<u32>)
    ensures
        table@.len() == 256,
        forall|i: int| 0 <= i < 256 ==> table@[i] == table_entry(i),
{
    let mut table: Vec<u32> = Vec::with_capacity(256);
    let mut i: u32 = 0;
    while i < 256
        invariant
            i <= 256,
            table@.len() == i,
            forall|k: int| 0 <= k < i ==> table@[k] == table_entry(k),
        decreases 256 - i,
    {
        let mut c: u32 = i << 16u32;
        let ghost c0 = c;
        proof {
            lemma_table_seed(i);
        }
        let mut j: u32 = 0;
        while j < 8
            invariant
                j <= 8,
                c0 == (i << 16u32),
                i < 256,
                j == 0 ==> c == c0,
                j == 1 ==> c == shift1(c0),
                j == 2 ==> c == shift1(shift1(c0)),
                j == 3 ==> c == shift1(shift1(shift1(c0))),
                j == 4 ==> c == shift1(shift1(shift1(shift1(c0)))),
                j == 5 ==> c == shift1(shift1(shift1(shift1(shift1(c0))))),
                j == 6 ==> c == shift1(shift1(shift1(shift1(shift1(shift1(c0)))))),
                j == 7 ==> c == shift1(shift1(shift1(shift1(shift1(shift1(shift1(c0))))))),
                j == 8 ==> c == shift8(c0),
                c <= 0x00FF_FFFF,
            decreases 8 - j,
        {
            let ghost prev = c;
            if c & 0x0080_0000 != 0 {
                c = ((c << 1u32) ^ GENERATOR_POLY) & 0x00FF_FFFF;
            } else {
                c = (c << 1u32) & 0x00FF_FFFF;
            }
            assert(c == shift1(prev));
            proof {
                lemma_shift1_bound(prev);
            }
            j = j + 1;
        }
        table.push(c & 0x00FF_FFFF);
        proof {
            lemma_mask24(c);
        }
        i = i + 1;
    }
    table
}

/// The checksum of `msg` through a prebuilt lookup table.
fn checksum_with(table: &Vec<u32>, msg: &[u8]) -> (r: u32)
    requires
        table@.len() == 256,
        forall|i: int| 0 <= i < 256 ==> table@[i] == table_entry(i),
    ensures
        r == crc(msg@),
{
    let mut rem: u32 = 0;
    for k in 0..msg.len()
        invariant
            table@.len() == 256,
            forall|i: int| 0 <= i < 256 ==> table@[i] == table_entry(i),
            rem == crc(msg@.take(k as int)),
    {
        let b = msg[k];
        let idx: u8 = b ^ ((rem >> 16u32) as u8);
        proof {
            lemma_crc_bound(msg@.take(k as int));
            lemma_table_step(rem, b);
            assert(msg@.take(k + 1).drop_last() =~= msg@.take(k as int));
        }
        rem = ((rem << 8u32) ^ table[idx as usize]) & 0x00FF_FFFF;
    }
    assert(msg@.take(msg.len() as int) =~= msg@);
    rem
}

/// Compute the 24-bit Mode S checksum over `msg`.
///
/// A valid extended-squitter frame (parity in the last three bytes) returns
/// `0`; the checksum of the data bytes alone is exactly the parity to append.
pub fn checksum(msg: &[u8]) -> (r: u32)
    ensures
        r == crc(msg@),
        r <= 0x00FF_FFFF,
{
    let table = build_table();
    proof {
        lemma_crc_bound(msg@);
    }
    checksum_with(&table, msg)
}

/// Write the correct parity into the trailing three bytes of `frame`, after
/// which the whole frame checksums to zero.
pub fn append_parity(frame: &mut [u8])
    requires
        old(frame)@.len() >= 3,
    ensures
        final(frame)@.len() == old(frame)@.len(),
        final(frame)@.subrange(0, old(frame)@.len() - 3) == old(frame)@.subrange(
            0,
            old(frame)@.len() - 3,
        ),
        ({
            let p = crc(old(frame)@.subrange(0, old(frame)@.len() - 3));
            &&& final(frame)@[old(frame)@.len() - 3] == (p >> 16u32) as u8
            &&& final(frame)@[old(frame)@.len() - 2] == (p >> 8u32) as u8
            &&& final(frame)@[old(frame)@.len() - 1] == p as u8
        }),
        crc(final(frame)@) == 0,
{
    let n = frame.len();
    let mut data: Vec<u8> = Vec::with_capacity(n - 3);
    for k in 0..n - 3
        invariant
            n == frame@.len(),
            n >= 3,
            data@ == frame@.take(k as int),
    {
        data.push(frame[k]);
        assert(frame@.take(k + 1) =~= frame@.take(k as int).push(frame@[k as int]));
    }
    let p = checksum(data.as_slice());
    let ghost d = data@;
    assert(d =~= old(frame)@.subrange(0, n - 3));
    frame[n - 3] = (p >> 16u32) as u8;
    frame[n - 2] = (p >> 8u32) as u8;
    frame[n - 1] = p as u8;
    proof {
        let f = frame@;
        assert(f.subrange(0, n - 3) =~= d);
        let s1 = f.subrange(0, n - 2);
        let s2 = f.subrange(0, n - 1);
        assert(s1.drop_last() =~= d);
        assert(s2.drop_last() =~= s1);
        assert(f.drop_last() =~= s2);
        lemma_parity_clears(p);
        assert(crc(s1) == crc_byte(crc(d), s1.last()));
        assert(crc(s2) == crc_byte(crc(s1), s2.last()));
        assert(crc(f) == crc_byte(crc(s2), f.last()));
    }
}

/// CRC syndrome of the `nbits`-bit frame that is all zeros except bit `p`.
fn single_bit_syndrome(p: usize, nbits: usize) -> (r: u32)
    requires
        p < nbits - nbits % 8,
    ensures
        r == syndrome(p as int, nbits as int),
{
    let n = nbits / 8;
    let mut buf: Vec<u8> = Vec::with_capacity(n);
    for k in 0..n
        invariant
            buf@ == Seq::new(k as nat, |j: int| 0u8),
    {
        buf.push(0u8);
        assert(buf@ =~= Seq::new((k + 1) as nat, |j: int| 0u8));
    }
    let sh: u8 = (7 - p % 8) as u8;
    let bit: u8 = 1u8 << sh;
    buf.set(p / 8, buf[p / 8] | bit);
    proof {
        lemma_bit_identities(0, bit);
        assert(buf@ =~= unit_frame(p as int, n as int));
    }
    checksum(buf.as_slice())
}

/// Whether some bit of an `nbits`-bit frame has syndrome `residual`.
pub open spec fn explained_by_single_bit(residual: u32, nbits: int) -> bool {
    exists|p: int| 0 <= p < nbits && syndrome(p, nbits) == residual
}

/// The bit a single-bit repair flips: the first bit of an `nbits`-bit frame
/// whose syndrome is the nonzero `residual`, if any.
pub open spec fn repair_position(residual: u32, nbits: int) -> Option<int> {
    if residual != 0 && explained_by_single_bit(residual, nbits) {
        Some(
            choose|p: int|
                0 <= p < nbits && syndrome(p, nbits) == residual && forall|q: int|
                    0 <= q < p ==> syndrome(q, nbits) != residual,
        )
    } else {
        None
    }
}

/// The first matching bit is the one `repair_position` names.
proof fn lemma_repair_position_is(residual: u32, nbits: int, p: int)
    requires
        residual != 0,
        0 <= p < nbits,
        syndrome(p, nbits) == residual,
        forall|q: int| 0 <= q < p ==> syndrome(q, nbits) != residual,
    ensures
        repair_position(residual, nbits) == Some(p),
{
    assert(explained_by_single_bit(residual, nbits));
    let c = choose|c: int|
        0 <= c < nbits && syndrome(c, nbits) == residual && forall|q: int|
            0 <= q < c ==> syndrome(q, nbits) != residual;
    assert(0 <= c < nbits && syndrome(c, nbits) == residual && forall|q: int|
        0 <= q < c ==> syndrome(q, nbits) != residual);
    if c < p {
    } else if c > p {
    }
}

/// Locate a single-bit error in an `nbits`-bit frame from its CRC residual.
///
/// Flipping bit `p` of a frame XORs the fixed syndrome of `p` into its
/// residual, so a frame damaged in exactly one bit has a residual equal to that
/// bit's syndrome. Returns the first bit position whose syndrome matches a
/// nonzero `residual`, or `None` when `residual` is zero or no single flip
/// explains it (two-or-more-bit damage is never guessed at).
pub fn locate_single_bit_error(residual: u32, nbits: usize) -> (r: Option<usize>)
    requires
        nbits % 8 == 0 || residual == 0 || exists|p: int|
            0 <= p < nbits - nbits % 8 && syndrome(p, nbits as int) == residual,
    ensures
        match r {
            Some(p) => {
                &&& residual != 0
                &&& p < nbits
                &&& syndrome(p as int, nbits as int) == residual
                &&& forall|q: int| 0 <= q < p ==> syndrome(q, nbits as int) != residual
            },
            None => residual == 0 || !explained_by_single_bit(residual, nbits as int),
        },
        r matches Some(p) ==> repair_position(residual, nbits as int) == Some(p as int),
        r is None ==> repair_position(residual, nbits as int) is None,
{
    if residual == 0 {
        return None;
    }
    assert(nbits % 8 == 0 || exists|q: int|
        0 <= q < nbits - nbits % 8 && syndrome(q, nbits as int) == residual);
    let mut p: usize = 0;
    while p < nbits
        invariant
            p <= nbits,
            nbits % 8 == 0 || exists|q: int|
                p <= q < nbits - nbits % 8 && syndrome(q, nbits as int) == residual,
            residual != 0,
            forall|q: int| 0 <= q < p ==> syndrome(q, nbits as int) != residual,
        decreases nbits - p,
    {
        if single_bit_syndrome(p, nbits) == residual {
            proof {
                lemma_repair_position_is(residual, nbits as int, p as int);
            }
            return Some(p);
        }
        p = p + 1;
    }
    None
}

/// Flipping bit `p` XORs its syndrome into the checksum.
pub proof fn lemma_flip_syndrome(msg: Seq<u8>, p: int)
    requires
        0 <= p < msg.len() * 8,
    ensures
        crc(flip_bit(msg, p)) == crc(msg) ^ syndrome(p, (msg.len() * 8) as int),
{
    let u = unit_frame(p, ((msg.len() * 8) as int) / 8);
    assert((msg.len() * 8) / 8 == msg.len()) by (nonlinear_arith);
    assert(0 <= p / 8 < msg.len()) by (nonlinear_arith)
        requires
            0 <= p < msg.len() * 8,
    ;
    assert forall|k: int| 0 <= k < msg.len() implies #[trigger] xor_seq(msg, u)[k] == flip_bit(msg, p)[k] by {
        if k != p / 8 {
            let m = msg[k];
            lemma_bit_identities(0, m);
        }
    }
    assert(xor_seq(msg, u) =~= flip_bit(msg, p));
    lemma_crc_linear(msg, u);
}

/// Attempt to correct a single-bit error in `frame` in place.
///
/// Returns `true` and leaves `frame` checksumming to zero when one bit flip —
/// the first whose syndrome matches — repairs it; returns `false` and leaves
/// `frame` untouched otherwise (a clean frame, or damage no single flip
/// explains).
pub fn try_repair_single_bit(frame: &mut [u8]) -> (repaired: bool)
    requires
        old(frame)@.len() * 8 <= usize::MAX,
    ensures
        repaired == (crc(old(frame)@) != 0 && explained_by_single_bit(
            crc(old(frame)@),
            (old(frame)@.len() * 8) as int,
        )),
        repaired ==> crc(final(frame)@) == 0,
        repaired ==> final(frame)@ == flip_bit(
            old(frame)@,
            repair_position(crc(old(frame)@), (old(frame)@.len() * 8) as int).unwrap(),
        ),
        !repaired ==> final(frame)@ == old(frame)@,
{
    let nbits = frame.len() * 8;
    assert(nbits % 8 == 0) by (nonlinear_arith)
        requires
            nbits == frame@.len() * 8,
    ;
    let residual = checksum(frame);
    match locate_single_bit_error(residual, nbits) {
        Some(p) => {
            proof {
                lemma_flip_syndrome(frame@, p as int);
                lemma_bit_identities(residual, 0);
            }
            let ghost before = frame@;
            let sh: u8 = (7 - p % 8) as u8;
            let idx = p / 8;
            let v = frame[idx] ^ (1u8 << sh);
            frame[idx] = v;
            assert(frame@ =~= flip_bit(before, p as int));
            true
        },
        None => false,
    }
}


/// A clean frame damaged in one bit is exactly what the single-bit repair
/// undoes, whenever that bit's syndrome is nonzero and no earlier bit of the
/// frame shares it: the damaged frame's residual is the bit's syndrome, the
/// repair names that bit, and flipping it back gives the clean frame.
pub proof fn lemma_repair_restores_clean(clean: Seq<u8>, p: int)
    requires
        crc(clean) == 0,
        0 <= p < clean.len() * 8,
        syndrome(p, (clean.len() * 8) as int) != 0,
        forall|q: int|
            0 <= q < p ==> #[trigger] syndrome(q, (clean.len() * 8) as int) != syndrome(
                p,
                (clean.len() * 8) as int,
            ),
    ensures
        crc(flip_bit(clean, p)) == syndrome(p, (clean.len() * 8) as int),
        repair_position(crc(flip_bit(clean, p)), (clean.len() * 8) as int) == Some(p),
        flip_bit(flip_bit(clean, p), p) == clean,
{
    let n = (clean.len() * 8) as int;
    lemma_flip_syndrome(clean, p);
    lemma_bit_identities(syndrome(p, n), 0);
    assert(0 <= p / 8 < clean.len()) by (nonlinear_arith)
        requires
            0 <= p < clean.len() * 8,
    ;
    let m = clean[p / 8];
    lemma_bit_identities(0, m);
    let d = flip_bit(clean, p);
    lemma_repair_position_is(crc(d), n, p);
    assert(flip_bit(d, p) =~= clean);
}

} // verus!
