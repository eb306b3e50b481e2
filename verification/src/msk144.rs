//! MSK144 (meteor scatter): a 72 ms frame of `s8 + 48 coded bits + s8 + 80
//! coded bits` (144 half-symbols) of continuous-phase offset MSK. This
//! module maps an LDPC(128,90) codeword to the 144 channel tones.
use vstd::prelude::*;

verus! {

/// Half-symbols (tones) per frame.
pub const MSK_NSYM: usize = 144;

/// The 8-bit MSK144 sync word.
pub const S8: [u8; 8] = [0, 1, 1, 1, 0, 0, 1, 0];

/// Channel bit `k` of a frame: the sync word at 0..8 and 56..64, codeword
/// bits 0..48 at 8..56 and 48..128 at 64..144.
pub open spec fn msk_bit(cw: Seq<u8>, k: int) -> int {
    if k < 8 {
        S8@[k] as int
    } else if k < 56 {
        cw[k - 8] as int
    } else if k < 64 {
        S8@[k - 56] as int
    } else {
        cw[k - 16] as int
    }
}

/// Channel bit `k` mapped `{0,1} → {-1,+1}`.
pub open spec fn msk_pm(cw: Seq<u8>, k: int) -> int {
    2 * msk_bit(cw, k) - 1
}

/// Integer division by two, truncating toward zero.
pub open spec fn half_toward_zero(x: int) -> int {
    if x >= 0 {
        x / 2
    } else {
        -((-x) / 2)
    }
}

/// Tone `j` of the differential offset-MSK map, before the final `1 - t`.
pub open spec fn msk_raw_tone(cw: Seq<u8>, j: int) -> int {
    let k = j / 2;
    if j % 2 == 0 {
        half_toward_zero(msk_pm(cw, 2 * k + 1) * msk_pm(cw, 2 * k) + 1)
    } else {
        half_toward_zero(-(msk_pm(cw, 2 * k + 1) * msk_pm(cw, (2 * k + 2) % 144) - 1))
    }
}

/// Map the 128-bit LDPC codeword to the 144 MSK channel tones: interleave
/// the two sync words with the 48+80 coded bits, map to ±1, then apply the
/// differential offset-MSK tone map; each tone is `1 - t` cut to a byte.
pub fn tones_from_codeword(cw: &[u8; 128]) -> (out: [u8; 144])
    ensures
        forall|j: int|
            0 <= j < 144 ==> out@[j] == #[trigger] (#[verifier::truncate] ((1 - msk_raw_tone(cw@, j)) as u8)),
{
    let s8 = S8;
    let mut bs = [0i32; 144];
    for i in 0..8
        invariant
            s8@ == S8@,
            forall|k: int| 0 <= k < i ==> bs@[k] == msk_bit(cw@, k),
            forall|k: int| 56 <= k < 56 + i ==> bs@[k] == msk_bit(cw@, k),
    {
        bs[i] = s8[i] as i32;
        bs[56 + i] = s8[i] as i32;
    }
    for i in 0..48
        invariant
            forall|k: int| 0 <= k < 8 + i ==> bs@[k] == msk_bit(cw@, k),
            forall|k: int| 56 <= k < 64 ==> bs@[k] == msk_bit(cw@, k),
    {
        bs[8 + i] = cw[i] as i32;
    }
    for i in 0..80
        invariant
            forall|k: int| 0 <= k < 64 + i ==> bs@[k] == msk_bit(cw@, k),
    {
        bs[64 + i] = cw[48 + i] as i32;
    }
    for i in 0..144
        invariant
            forall|k: int| 0 <= k < i ==> bs@[k] == msk_pm(cw@, k),
            forall|k: int| i <= k < 144 ==> bs@[k] == msk_bit(cw@, k),
    {
        bs[i] = 2 * bs[i] - 1;
    }
    let mut out = [0u8; 144];
    for k in 0..72
        invariant
            forall|m: int| 0 <= m < 144 ==> bs@[m] == msk_pm(cw@, m),
            forall|j: int|
                0 <= j < 2 * k ==> out@[j] == #[trigger] (#[verifier::truncate] ((1 - msk_raw_tone(cw@, j)) as u8)),
    {
        let a = bs[2 * k + 1];
        let b = bs[2 * k];
        let c = bs[(2 * k + 2) % 144];
        assert(-511 <= a <= 509 && -511 <= b <= 509 && -511 <= c <= 509);
        assert(-300000 <= a * b <= 300000 && -300000 <= a * c <= 300000) by (nonlinear_arith)
            requires
                -511 <= a <= 509,
                -511 <= b <= 509,
                -511 <= c <= 509,
        ;
        let t0: i32 = (a * b + 1) / 2;
        let t1: i32 = -(a * c - 1) / 2;
        out[2 * k] = #[verifier::truncate] ((1 - t0) as u8);
        out[2 * k + 1] = #[verifier::truncate] ((1 - t1) as u8);
        assert(msk_raw_tone(cw@, 2 * k as int) == t0);
        assert(msk_raw_tone(cw@, 2 * k + 1) == t1);
    }
    out
}

/// A 3-bit message-type field from three message bits, first bit highest.
pub open spec fn type_field(a: u8, b: u8, c: u8) -> u32 {
    ((a as u32) << 2u32) | ((b as u32) << 1u32) | (c as u32)
}

/// The message types the MSK144 frame decoder discards: `i3 = 0` with
/// `n3` 1, 3, 4 or above 5, `i3 = 3`, and `i3` above 5.
pub open spec fn rejected_type(n3: u32, i3: u32) -> bool {
    (i3 == 0 && (n3 == 1 || n3 == 3 || n3 == 4 || n3 > 5)) || i3 == 3 || i3 > 5
}

/// Whether a decoded 77-bit message is of a type the frame decoder
/// discards: `n3` is message bits 71..74 and `i3` bits 74..77.
pub fn message_type_rejected(msg77: &[u8; 77]) -> (r: bool)
    ensures
        r == rejected_type(
            type_field(msg77@[71], msg77@[72], msg77@[73]),
            type_field(msg77@[74], msg77@[75], msg77@[76]),
        ),
{
    let n3 = ((msg77[71] as u32) << 2u32) | ((msg77[72] as u32) << 1u32) | (msg77[73] as u32);
    let i3 = ((msg77[74] as u32) << 2u32) | ((msg77[75] as u32) << 1u32) | (msg77[76] as u32);
    (i3 == 0 && (n3 == 1 || n3 == 3 || n3 == 4 || n3 > 5)) || i3 == 3 || i3 > 5
}

} // verus!
