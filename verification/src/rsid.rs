//! RSID (Reed-Solomon Identifier): a short 15-tone MFSK burst ahead of a
//! transmission that identifies the mode. A 12-bit code is encoded into 15
//! RS(15,3) symbols over GF(16); each symbol is a tone index.
use vstd::prelude::*;
use crate::text::str_eq;

verus! {

/// Number of RS symbols (tones) per burst.
pub const NSYMBOLS: usize = 15;

/// Reserved code: end-of-transmission marker.
pub const RSID_EOT: u16 = 263;

/// Reserved code: escape to the secondary (extended) table.
pub const RSID_ESCAPE: u16 = 6;

/// GF(16) multiplication table: `SQUARES[(a << 4) + b] == a·b`.
pub const SQUARES: [u8; 256] = [
    0, 0, 0, 0, 0, 0, 0, 0, 0, 0, 0, 0, 0, 0, 0, 0,
    0, 1, 2, 3, 4, 5, 6, 7, 8, 9, 10, 11, 12, 13, 14, 15,
    0, 2, 4, 6, 8, 10, 12, 14, 9, 11, 13, 15, 1, 3, 5, 7,
    0, 3, 6, 5, 12, 15, 10, 9, 1, 2, 7, 4, 13, 14, 11, 8,
    0, 4, 8, 12, 9, 13, 1, 5, 11, 15, 3, 7, 2, 6, 10, 14,
    0, 5, 10, 15, 13, 8, 7, 2, 3, 6, 9, 12, 14, 11, 4, 1,
    0, 6, 12, 10, 1, 7, 13, 11, 2, 4, 14, 8, 3, 5, 15, 9,
    0, 7, 14, 9, 5, 2, 11, 12, 10, 13, 4, 3, 15, 8, 1, 6,
    0, 8, 9, 1, 11, 3, 2, 10, 15, 7, 6, 14, 4, 12, 13, 5,
    0, 9, 11, 2, 15, 6, 4, 13, 7, 14, 12, 5, 8, 1, 3, 10,
    0, 10, 13, 7, 3, 9, 14, 4, 6, 12, 11, 1, 5, 15, 8, 2,
    0, 11, 15, 4, 7, 12, 8, 3, 14, 5, 1, 10, 9, 2, 6, 13,
    0, 12, 1, 13, 2, 14, 3, 15, 4, 8, 5, 9, 6, 10, 7, 11,
    0, 13, 3, 14, 6, 11, 5, 8, 12, 1, 15, 2, 10, 7, 9, 4,
    0, 14, 5, 11, 10, 4, 15, 1, 13, 3, 8, 6, 7, 9, 2, 12,
    0, 15, 7, 8, 14, 1, 9, 6, 5, 10, 2, 13, 11, 4, 12, 3,
];

/// The 12 generator roots.
pub const INDICES: [u8; 12] = [2, 4, 8, 9, 11, 15, 7, 14, 5, 10, 13, 3];

/// The GF(16) product `a·b` from the table.
pub open spec fn gf_mul(a: u8, b: u8) -> u8 {
    SQUARES@[(a as int) * 16 + (b as int)]
}

/// The symbols before encoding: the code's three nibbles, then zeros.
pub open spec fn rsid_init(code: u16) -> Seq<u8> {
    Seq::new(
        15,
        |j: int|
            if j == 0 {
                (code >> 8u16) as u8
            } else if j == 1 {
                ((code >> 4u16) & 0x0f) as u8
            } else if j == 2 {
                (code & 0x0f) as u8
            } else {
                0u8
            },
    )
}

/// One division step by the root `r`: every symbol becomes the one before it
/// plus its own product with `r`; the first becomes its product with `r`.
pub open spec fn rsid_step(s: Seq<u8>, r: u8) -> Seq<u8> {
    Seq::new(
        15,
        |j: int|
            if j == 0 {
                gf_mul(s[0], r)
            } else {
                s[j - 1] ^ gf_mul(s[j], r)
            },
    )
}

/// The symbols after the steps for the first `k` roots.
pub open spec fn rsid_after(code: u16, k: int) -> Seq<u8>
    decreases k,
{
    if k <= 0 {
        rsid_init(code)
    } else {
        rsid_step(rsid_after(code, k - 1), INDICES@[k - 1])
    }
}

/// The 15 RS symbols of a code: the steps for all 12 roots.
pub open spec fn rsid_symbols(code: u16) -> Seq<u8> {
    rsid_after(code, 12)
}

proof fn lemma_squares_small(i: int)
    requires
        0 <= i < 256,
    ensures
        SQUARES@[i] < 16,
{
}

proof fn lemma_xor_small(a: u8, b: u8)
    requires
        a < 16,
        b < 16,
    ensures
        a ^ b < 16,
{
    assert(a ^ b < 16) by (bit_vector)
        requires
            a < 16,
            b < 16,
    ;
}

/// Encode an RSID code into its 15 Reed-Solomon symbols (tone indices
/// 0..15). Codes are 12-bit.
pub fn encode(code: u16) -> (rsid: [u8; 15])
    requires
        code < 4096,
    ensures
        rsid@ == rsid_symbols(code),
{
    let squares = SQUARES;
    let indices = INDICES;
    let mut rsid = [0u8; 15];
    rsid[0] = (code >> 8) as u8;
    rsid[1] = ((code >> 4) & 0x0f) as u8;
    rsid[2] = (code & 0x0f) as u8;
    assert((code >> 8u16) < 16 && ((code >> 4u16) & 0x0f) < 16 && (code & 0x0f) < 16)
        by (bit_vector)
        requires
            code < 4096,
    ;
    assert(rsid@ =~= rsid_after(code, 0));
    for k in 0..12
        invariant
            squares@ == SQUARES@,
            indices@ == INDICES@,
            rsid@ == rsid_after(code, k as int),
            forall|j: int| 0 <= j < 15 ==> #[trigger] rsid@[j] < 16,
    {
        let idx = indices[k] as usize;
        let ghost before = rsid@;
        let mut j: usize = 14;
        while j >= 1
            invariant
                squares@ == SQUARES@,
                k < 12,
                idx == INDICES@[k as int],
                j <= 14,
                forall|m: int| 0 <= m < 15 ==> #[trigger] before[m] < 16,
                forall|m: int| 0 <= m < 15 ==> #[trigger] rsid@[m] < 16,
                forall|m: int| 0 <= m <= j ==> rsid@[m] == before[m],
                forall|m: int| j < m < 15 ==> rsid@[m] == rsid_step(before, INDICES@[k as int])[m],
            decreases j,
        {
            let cur = rsid[j];
            let prev = rsid[j - 1];
            assert(((cur as usize) << 4usize) == (cur as usize) * 16) by (bit_vector)
                requires
                    cur < 16,
            ;
            proof {
                lemma_squares_small((cur as int) * 16 + idx);
                lemma_xor_small(prev, squares@[(cur as int) * 16 + idx]);
            }
            rsid[j] = prev ^ squares[((cur as usize) << 4) + idx];
            j = j - 1;
        }
        let r0 = rsid[0];
        proof {
            lemma_squares_small((r0 as int) * 16 + idx);
        }
        assert(((r0 as usize) << 4usize) == (r0 as usize) * 16) by (bit_vector)
            requires
                r0 < 16,
        ;
        rsid[0] = squares[((r0 as usize) << 4) + idx];
        assert(rsid@ =~= rsid_step(before, INDICES@[k as int]));
    }
    rsid
}

/// One entry of an RSID ID table: the code, the tag a detection reports, and
/// the mode string it identifies (`None` for a mode without a modem here).
#[derive(Debug, Clone, Copy)]
pub struct RsidEntry {
    pub code: u16,
    pub tag: &'static str,
    /// The mode string, or `None` if the mode is not provided.
    pub mode: Option<&'static str>,
}

/// The primary ID table.
pub open spec fn rsid_table1() -> Seq<RsidEntry> {
    seq![
        RsidEntry { code: 263, tag: "EOT", mode: None },
        RsidEntry { code: 6, tag: "ESCAPE", mode: None },
        RsidEntry { code: 1, tag: "BPSK31", mode: Some("psk31") },
        RsidEntry { code: 110, tag: "QPSK31", mode: Some("qpsk31") },
        RsidEntry { code: 2, tag: "BPSK63", mode: Some("psk63") },
        RsidEntry { code: 3, tag: "QPSK63", mode: Some("qpsk63") },
        RsidEntry { code: 4, tag: "BPSK125", mode: Some("psk125") },
        RsidEntry { code: 5, tag: "QPSK125", mode: Some("qpsk125") },
        RsidEntry { code: 126, tag: "BPSK250", mode: Some("psk250") },
        RsidEntry { code: 127, tag: "QPSK250", mode: Some("qpsk250") },
        RsidEntry { code: 173, tag: "BPSK500", mode: Some("psk500") },
        RsidEntry { code: 183, tag: "PSK125R", mode: Some("psk125r") },
        RsidEntry { code: 186, tag: "PSK250R", mode: Some("psk250r") },
        RsidEntry { code: 187, tag: "PSK500R", mode: Some("psk500r") },
        RsidEntry { code: 7, tag: "PSKFEC31", mode: None },
        RsidEntry { code: 8, tag: "PSK10", mode: None },
        RsidEntry { code: 9, tag: "MT63_500_LG", mode: Some("mt63_500l") },
        RsidEntry { code: 10, tag: "MT63_500_ST", mode: Some("mt63_500s") },
        RsidEntry { code: 11, tag: "MT63_500_VST", mode: None },
        RsidEntry { code: 12, tag: "MT63_1000_LG", mode: Some("mt63_1000l") },
        RsidEntry { code: 13, tag: "MT63_1000_ST", mode: Some("mt63_1000s") },
        RsidEntry { code: 14, tag: "MT63_1000_VST", mode: None },
        RsidEntry { code: 15, tag: "MT63_2000_LG", mode: Some("mt63_2000l") },
        RsidEntry { code: 17, tag: "MT63_2000_ST", mode: Some("mt63_2000s") },
        RsidEntry { code: 18, tag: "MT63_2000_VST", mode: None },
        RsidEntry { code: 19, tag: "PSKAM10", mode: None },
        RsidEntry { code: 20, tag: "PSKAM31", mode: None },
        RsidEntry { code: 21, tag: "PSKAM50", mode: None },
        RsidEntry { code: 22, tag: "PSK63F", mode: Some("psk63f") },
        RsidEntry { code: 23, tag: "PSK220F", mode: None },
        RsidEntry { code: 24, tag: "CHIP64", mode: None },
        RsidEntry { code: 25, tag: "CHIP128", mode: None },
        RsidEntry { code: 26, tag: "CW", mode: Some("cw") },
        RsidEntry { code: 27, tag: "CCW_OOK_12", mode: None },
        RsidEntry { code: 28, tag: "CCW_OOK_24", mode: None },
        RsidEntry { code: 29, tag: "CCW_OOK_48", mode: None },
        RsidEntry { code: 30, tag: "CCW_FSK_12", mode: None },
        RsidEntry { code: 31, tag: "CCW_FSK_24", mode: None },
        RsidEntry { code: 33, tag: "CCW_FSK_48", mode: None },
        RsidEntry { code: 34, tag: "PACTOR1_FEC", mode: None },
        RsidEntry { code: 113, tag: "PACKET_110", mode: None },
        RsidEntry { code: 35, tag: "PACKET_300", mode: None },
        RsidEntry { code: 36, tag: "PACKET_1200", mode: None },
        RsidEntry { code: 37, tag: "RTTY_ASCII_7", mode: None },
        RsidEntry { code: 38, tag: "RTTY_ASCII_8", mode: None },
        RsidEntry { code: 39, tag: "RTTY_45", mode: Some("rtty") },
        RsidEntry { code: 40, tag: "RTTY_50", mode: Some("rtty:baud=50,shift=170") },
        RsidEntry { code: 41, tag: "RTTY_75", mode: Some("rtty:baud=75,shift=850") },
        RsidEntry { code: 42, tag: "AMTOR_FEC", mode: None },
        RsidEntry { code: 43, tag: "THROB_1", mode: None },
        RsidEntry { code: 44, tag: "THROB_2", mode: None },
        RsidEntry { code: 45, tag: "THROB_4", mode: None },
        RsidEntry { code: 46, tag: "THROBX_1", mode: None },
        RsidEntry { code: 47, tag: "THROBX_2", mode: None },
        RsidEntry { code: 146, tag: "THROBX_4", mode: None },
        RsidEntry { code: 204, tag: "CONTESTIA_4_125", mode: Some("contestia4_125") },
        RsidEntry { code: 55, tag: "CONTESTIA_4_250", mode: Some("contestia4_250") },
        RsidEntry { code: 54, tag: "CONTESTIA_4_500", mode: Some("contestia4_500") },
        RsidEntry { code: 255, tag: "CONTESTIA_4_1000", mode: Some("contestia4_1000") },
        RsidEntry { code: 254, tag: "CONTESTIA_4_2000", mode: Some("contestia4_2000") },
        RsidEntry { code: 169, tag: "CONTESTIA_8_125", mode: Some("contestia8_125") },
        RsidEntry { code: 49, tag: "CONTESTIA_8_250", mode: Some("contestia8_250") },
        RsidEntry { code: 52, tag: "CONTESTIA_8_500", mode: Some("contestia8_500") },
        RsidEntry { code: 117, tag: "CONTESTIA_8_1000", mode: Some("contestia8_1000") },
        RsidEntry { code: 247, tag: "CONTESTIA_8_2000", mode: Some("contestia8_2000") },
        RsidEntry { code: 275, tag: "CONTESTIA_16_250", mode: Some("contestia16_250") },
        RsidEntry { code: 50, tag: "CONTESTIA_16_500", mode: Some("contestia16_500") },
        RsidEntry { code: 53, tag: "CONTESTIA_16_1000", mode: Some("contestia16_1000") },
        RsidEntry { code: 259, tag: "CONTESTIA_16_2000", mode: Some("contestia16_2000") },
        RsidEntry { code: 51, tag: "CONTESTIA_32_1000", mode: Some("contestia32_1000") },
        RsidEntry { code: 201, tag: "CONTESTIA_32_2000", mode: Some("contestia32_2000") },
        RsidEntry { code: 194, tag: "CONTESTIA_64_500", mode: Some("contestia64_500") },
        RsidEntry { code: 193, tag: "CONTESTIA_64_1000", mode: Some("contestia64_1000") },
        RsidEntry { code: 191, tag: "CONTESTIA_64_2000", mode: Some("contestia64_2000") },
        RsidEntry { code: 56, tag: "VOICE", mode: None },
        RsidEntry { code: 60, tag: "MFSK8", mode: Some("mfsk8") },
        RsidEntry { code: 57, tag: "MFSK16", mode: Some("mfsk16") },
        RsidEntry { code: 147, tag: "MFSK32", mode: Some("mfsk32") },
        RsidEntry { code: 148, tag: "MFSK11", mode: Some("mfsk11") },
        RsidEntry { code: 152, tag: "MFSK22", mode: Some("mfsk22") },
        RsidEntry { code: 61, tag: "RTTYM_8_250", mode: None },
        RsidEntry { code: 62, tag: "RTTYM_16_500", mode: None },
        RsidEntry { code: 63, tag: "RTTYM_32_1000", mode: None },
        RsidEntry { code: 65, tag: "RTTYM_8_500", mode: None },
        RsidEntry { code: 66, tag: "RTTYM_16_1000", mode: None },
        RsidEntry { code: 67, tag: "RTTYM_4_500", mode: None },
        RsidEntry { code: 68, tag: "RTTYM_4_250", mode: None },
        RsidEntry { code: 119, tag: "RTTYM_8_1000", mode: None },
        RsidEntry { code: 170, tag: "RTTYM_8_125", mode: None },
        RsidEntry { code: 203, tag: "OLIVIA_4_125", mode: Some("olivia:tones=4,bw=125") },
        RsidEntry { code: 75, tag: "OLIVIA_4_250", mode: Some("olivia:tones=4,bw=250") },
        RsidEntry { code: 74, tag: "OLIVIA_4_500", mode: Some("olivia:tones=4,bw=500") },
        RsidEntry { code: 229, tag: "OLIVIA_4_1000", mode: Some("olivia:tones=4,bw=1000") },
        RsidEntry { code: 238, tag: "OLIVIA_4_2000", mode: Some("olivia:tones=4,bw=2000") },
        RsidEntry { code: 163, tag: "OLIVIA_8_125", mode: Some("olivia:tones=8,bw=125") },
        RsidEntry { code: 69, tag: "OLIVIA_8_250", mode: Some("olivia:tones=8,bw=250") },
        RsidEntry { code: 72, tag: "OLIVIA_8_500", mode: Some("olivia:tones=8,bw=500") },
        RsidEntry { code: 116, tag: "OLIVIA_8_1000", mode: Some("olivia:tones=8,bw=1000") },
        RsidEntry { code: 214, tag: "OLIVIA_8_2000", mode: Some("olivia:tones=8,bw=2000") },
        RsidEntry { code: 70, tag: "OLIVIA_16_500", mode: Some("olivia:tones=16,bw=500") },
        RsidEntry { code: 73, tag: "OLIVIA_16_1000", mode: Some("olivia:tones=16,bw=1000") },
        RsidEntry { code: 234, tag: "OLIVIA_16_2000", mode: Some("olivia:tones=16,bw=2000") },
        RsidEntry { code: 71, tag: "OLIVIA_32_1000", mode: Some("olivia:tones=32,bw=1000") },
        RsidEntry { code: 221, tag: "OLIVIA_32_2000", mode: Some("olivia:tones=32,bw=2000") },
        RsidEntry { code: 211, tag: "OLIVIA_64_2000", mode: Some("olivia:tones=64,bw=2000") },
        RsidEntry { code: 76, tag: "PAX", mode: None },
        RsidEntry { code: 77, tag: "PAX2", mode: None },
        RsidEntry { code: 78, tag: "DOMINOF", mode: None },
        RsidEntry { code: 79, tag: "FAX", mode: None },
        RsidEntry { code: 81, tag: "SSTV", mode: None },
        RsidEntry { code: 84, tag: "DOMINOEX_4", mode: Some("dominoex4") },
        RsidEntry { code: 85, tag: "DOMINOEX_5", mode: Some("dominoex5") },
        RsidEntry { code: 86, tag: "DOMINOEX_8", mode: Some("dominoex8") },
        RsidEntry { code: 87, tag: "DOMINOEX_11", mode: Some("dominoex11") },
        RsidEntry { code: 88, tag: "DOMINOEX_16", mode: Some("dominoex16") },
        RsidEntry { code: 90, tag: "DOMINOEX_22", mode: Some("dominoex22") },
        RsidEntry { code: 92, tag: "DOMINOEX_4_FEC", mode: None },
        RsidEntry { code: 93, tag: "DOMINOEX_5_FEC", mode: None },
        RsidEntry { code: 97, tag: "DOMINOEX_8_FEC", mode: None },
        RsidEntry { code: 98, tag: "DOMINOEX_11_FEC", mode: None },
        RsidEntry { code: 99, tag: "DOMINOEX_16_FEC", mode: None },
        RsidEntry { code: 101, tag: "DOMINOEX_22_FEC", mode: None },
        RsidEntry { code: 104, tag: "FELD_HELL", mode: Some("feldhell") },
        RsidEntry { code: 105, tag: "PSK_HELL", mode: None },
        RsidEntry { code: 106, tag: "HELL_80", mode: Some("hell80") },
        RsidEntry { code: 107, tag: "FM_HELL_105", mode: None },
        RsidEntry { code: 108, tag: "FM_HELL_245", mode: None },
        RsidEntry { code: 114, tag: "MODE_141A", mode: None },
        RsidEntry { code: 123, tag: "DTMF", mode: None },
        RsidEntry { code: 125, tag: "ALE400", mode: None },
        RsidEntry { code: 131, tag: "FDMDV", mode: None },
        RsidEntry { code: 132, tag: "JT65_A", mode: Some("jt65") },
        RsidEntry { code: 134, tag: "JT65_B", mode: None },
        RsidEntry { code: 135, tag: "JT65_C", mode: None },
        RsidEntry { code: 136, tag: "THOR_4", mode: Some("thor4") },
        RsidEntry { code: 137, tag: "THOR_8", mode: Some("thor8") },
        RsidEntry { code: 138, tag: "THOR_16", mode: Some("thor16") },
        RsidEntry { code: 139, tag: "THOR_5", mode: Some("thor5") },
        RsidEntry { code: 143, tag: "THOR_11", mode: Some("thor11") },
        RsidEntry { code: 145, tag: "THOR_22", mode: Some("thor22") },
        RsidEntry { code: 153, tag: "CALL_ID", mode: None },
        RsidEntry { code: 155, tag: "PACKET_PSK1200", mode: None },
        RsidEntry { code: 156, tag: "PACKET_PSK250", mode: None },
        RsidEntry { code: 159, tag: "PACKET_PSK63", mode: None },
        RsidEntry { code: 172, tag: "MODE_188_110A_8N1", mode: None },
        RsidEntry { code: 0, tag: "NONE", mode: None },
    ]
}

/// The extended ID table, reached via an ESCAPE prefix.
pub open spec fn rsid_table2() -> Seq<RsidEntry> {
    seq![
        RsidEntry { code: 450, tag: "PSK63RX4", mode: Some("psk63rc4") },
        RsidEntry { code: 457, tag: "PSK63RX5", mode: Some("psk63rc5") },
        RsidEntry { code: 458, tag: "PSK63RX10", mode: Some("psk63rc10") },
        RsidEntry { code: 460, tag: "PSK63RX20", mode: Some("psk63rc20") },
        RsidEntry { code: 462, tag: "PSK63RX32", mode: Some("psk63rc32") },
        RsidEntry { code: 467, tag: "PSK125RX4", mode: Some("psk125rc4") },
        RsidEntry { code: 497, tag: "PSK125RX5", mode: Some("psk125rc5") },
        RsidEntry { code: 513, tag: "PSK125RX10", mode: Some("psk125rc10") },
        RsidEntry { code: 519, tag: "PSK125X12", mode: Some("psk125c12") },
        RsidEntry { code: 522, tag: "PSK125RX12", mode: Some("psk125rc12") },
        RsidEntry { code: 527, tag: "PSK125RX16", mode: Some("psk125rc16") },
        RsidEntry { code: 529, tag: "PSK250RX2", mode: Some("psk250rc2") },
        RsidEntry { code: 533, tag: "PSK250RX3", mode: Some("psk250rc3") },
        RsidEntry { code: 539, tag: "PSK250RX5", mode: Some("psk250rc5") },
        RsidEntry { code: 541, tag: "PSK250X6", mode: Some("psk250c6") },
        RsidEntry { code: 545, tag: "PSK250RX6", mode: Some("psk250rc6") },
        RsidEntry { code: 551, tag: "PSK250RX7", mode: Some("psk250rc7") },
        RsidEntry { code: 553, tag: "PSK500RX2", mode: Some("psk500rc2") },
        RsidEntry { code: 558, tag: "PSK500RX3", mode: Some("psk500rc3") },
        RsidEntry { code: 564, tag: "PSK500RX4", mode: Some("psk500rc4") },
        RsidEntry { code: 566, tag: "PSK500X2", mode: Some("psk500c2") },
        RsidEntry { code: 569, tag: "PSK500X4", mode: Some("psk500c4") },
        RsidEntry { code: 570, tag: "PSK1000", mode: Some("psk1000") },
        RsidEntry { code: 580, tag: "PSK1000R", mode: Some("psk1000r") },
        RsidEntry { code: 587, tag: "PSK1000X2", mode: Some("psk1000c2") },
        RsidEntry { code: 595, tag: "PSK1000RX2", mode: None },
        RsidEntry { code: 604, tag: "PSK800RX2", mode: None },
        RsidEntry { code: 610, tag: "PSK800X2", mode: None },
        RsidEntry { code: 620, tag: "MFSK64", mode: Some("mfsk64") },
        RsidEntry { code: 625, tag: "MFSK128", mode: Some("mfsk128") },
        RsidEntry { code: 639, tag: "THOR25x4", mode: Some("thor25x4") },
        RsidEntry { code: 649, tag: "THOR50x1", mode: Some("thor50x1") },
        RsidEntry { code: 653, tag: "THOR50x2", mode: Some("thor50x2") },
        RsidEntry { code: 658, tag: "THOR100", mode: Some("thor100") },
        RsidEntry { code: 662, tag: "DOMINOEX_44", mode: Some("dominoex44") },
        RsidEntry { code: 681, tag: "DOMINOEX_88", mode: Some("dominoex88") },
        RsidEntry { code: 687, tag: "MFSK31", mode: Some("mfsk31") },
        RsidEntry { code: 691, tag: "DOMINOEX_MICRO", mode: Some("dominoexmicro") },
        RsidEntry { code: 693, tag: "THOR_MICRO", mode: Some("thormicro") },
        RsidEntry { code: 1026, tag: "MFSK64L", mode: Some("mfsk64l") },
        RsidEntry { code: 1029, tag: "MFSK128L", mode: Some("mfsk128l") },
        RsidEntry { code: 1066, tag: "PSK8P125", mode: None },
        RsidEntry { code: 1071, tag: "PSK8P250", mode: None },
        RsidEntry { code: 1076, tag: "PSK8P500", mode: None },
        RsidEntry { code: 1047, tag: "PSK8P1000", mode: None },
        RsidEntry { code: 1037, tag: "PSK8P125F", mode: None },
        RsidEntry { code: 1038, tag: "PSK8P250F", mode: None },
        RsidEntry { code: 1043, tag: "PSK8P500F", mode: None },
        RsidEntry { code: 1078, tag: "PSK8P1000F", mode: None },
        RsidEntry { code: 1058, tag: "PSK8P1200F", mode: None },
        RsidEntry { code: 1239, tag: "PSK8P125FL", mode: None },
        RsidEntry { code: 2052, tag: "PSK8P250FL", mode: None },
        RsidEntry { code: 2053, tag: "OFDM500F", mode: None },
        RsidEntry { code: 2094, tag: "OFDM7F0F", mode: None },
        RsidEntry { code: 2118, tag: "OFDM2000", mode: None },
        RsidEntry { code: 2110, tag: "OFDM2000F", mode: None },
        RsidEntry { code: 1171, tag: "IFKP", mode: None },
        RsidEntry { code: 0, tag: "NONE2", mode: None },
    ]
}

/// The primary ID table.
pub fn table1() -> (r: &'static [RsidEntry])
    ensures
        r@ == rsid_table1(),
{
    let r: &'static [RsidEntry] = &[
        RsidEntry { code: 263, tag: "EOT", mode: None },
        RsidEntry { code: 6, tag: "ESCAPE", mode: None },
        RsidEntry { code: 1, tag: "BPSK31", mode: Some("psk31") },
        RsidEntry { code: 110, tag: "QPSK31", mode: Some("qpsk31") },
        RsidEntry { code: 2, tag: "BPSK63", mode: Some("psk63") },
        RsidEntry { code: 3, tag: "QPSK63", mode: Some("qpsk63") },
        RsidEntry { code: 4, tag: "BPSK125", mode: Some("psk125") },
        RsidEntry { code: 5, tag: "QPSK125", mode: Some("qpsk125") },
        RsidEntry { code: 126, tag: "BPSK250", mode: Some("psk250") },
        RsidEntry { code: 127, tag: "QPSK250", mode: Some("qpsk250") },
        RsidEntry { code: 173, tag: "BPSK500", mode: Some("psk500") },
        RsidEntry { code: 183, tag: "PSK125R", mode: Some("psk125r") },
        RsidEntry { code: 186, tag: "PSK250R", mode: Some("psk250r") },
        RsidEntry { code: 187, tag: "PSK500R", mode: Some("psk500r") },
        RsidEntry { code: 7, tag: "PSKFEC31", mode: None },
        RsidEntry { code: 8, tag: "PSK10", mode: None },
        RsidEntry { code: 9, tag: "MT63_500_LG", mode: Some("mt63_500l") },
        RsidEntry { code: 10, tag: "MT63_500_ST", mode: Some("mt63_500s") },
        RsidEntry { code: 11, tag: "MT63_500_VST", mode: None },
        RsidEntry { code: 12, tag: "MT63_1000_LG", mode: Some("mt63_1000l") },
        RsidEntry { code: 13, tag: "MT63_1000_ST", mode: Some("mt63_1000s") },
        RsidEntry { code: 14, tag: "MT63_1000_VST", mode: None },
        RsidEntry { code: 15, tag: "MT63_2000_LG", mode: Some("mt63_2000l") },
        RsidEntry { code: 17, tag: "MT63_2000_ST", mode: Some("mt63_2000s") },
        RsidEntry { code: 18, tag: "MT63_2000_VST", mode: None },
        RsidEntry { code: 19, tag: "PSKAM10", mode: None },
        RsidEntry { code: 20, tag: "PSKAM31", mode: None },
        RsidEntry { code: 21, tag: "PSKAM50", mode: None },
        RsidEntry { code: 22, tag: "PSK63F", mode: Some("psk63f") },
        RsidEntry { code: 23, tag: "PSK220F", mode: None },
        RsidEntry { code: 24, tag: "CHIP64", mode: None },
        RsidEntry { code: 25, tag: "CHIP128", mode: None },
        RsidEntry { code: 26, tag: "CW", mode: Some("cw") },
        RsidEntry { code: 27, tag: "CCW_OOK_12", mode: None },
        RsidEntry { code: 28, tag: "CCW_OOK_24", mode: None },
        RsidEntry { code: 29, tag: "CCW_OOK_48", mode: None },
        RsidEntry { code: 30, tag: "CCW_FSK_12", mode: None },
        RsidEntry { code: 31, tag: "CCW_FSK_24", mode: None },
        RsidEntry { code: 33, tag: "CCW_FSK_48", mode: None },
        RsidEntry { code: 34, tag: "PACTOR1_FEC", mode: None },
        RsidEntry { code: 113, tag: "PACKET_110", mode: None },
        RsidEntry { code: 35, tag: "PACKET_300", mode: None },
        RsidEntry { code: 36, tag: "PACKET_1200", mode: None },
        RsidEntry { code: 37, tag: "RTTY_ASCII_7", mode: None },
        RsidEntry { code: 38, tag: "RTTY_ASCII_8", mode: None },
        RsidEntry { code: 39, tag: "RTTY_45", mode: Some("rtty") },
        RsidEntry { code: 40, tag: "RTTY_50", mode: Some("rtty:baud=50,shift=170") },
        RsidEntry { code: 41, tag: "RTTY_75", mode: Some("rtty:baud=75,shift=850") },
        RsidEntry { code: 42, tag: "AMTOR_FEC", mode: None },
        RsidEntry { code: 43, tag: "THROB_1", mode: None },
        RsidEntry { code: 44, tag: "THROB_2", mode: None },
        RsidEntry { code: 45, tag: "THROB_4", mode: None },
        RsidEntry { code: 46, tag: "THROBX_1", mode: None },
        RsidEntry { code: 47, tag: "THROBX_2", mode: None },
        RsidEntry { code: 146, tag: "THROBX_4", mode: None },
        RsidEntry { code: 204, tag: "CONTESTIA_4_125", mode: Some("contestia4_125") },
        RsidEntry { code: 55, tag: "CONTESTIA_4_250", mode: Some("contestia4_250") },
        RsidEntry { code: 54, tag: "CONTESTIA_4_500", mode: Some("contestia4_500") },
        RsidEntry { code: 255, tag: "CONTESTIA_4_1000", mode: Some("contestia4_1000") },
        RsidEntry { code: 254, tag: "CONTESTIA_4_2000", mode: Some("contestia4_2000") },
        RsidEntry { code: 169, tag: "CONTESTIA_8_125", mode: Some("contestia8_125") },
        RsidEntry { code: 49, tag: "CONTESTIA_8_250", mode: Some("contestia8_250") },
        RsidEntry { code: 52, tag: "CONTESTIA_8_500", mode: Some("contestia8_500") },
        RsidEntry { code: 117, tag: "CONTESTIA_8_1000", mode: Some("contestia8_1000") },
        RsidEntry { code: 247, tag: "CONTESTIA_8_2000", mode: Some("contestia8_2000") },
        RsidEntry { code: 275, tag: "CONTESTIA_16_250", mode: Some("contestia16_250") },
        RsidEntry { code: 50, tag: "CONTESTIA_16_500", mode: Some("contestia16_500") },
        RsidEntry { code: 53, tag: "CONTESTIA_16_1000", mode: Some("contestia16_1000") },
        RsidEntry { code: 259, tag: "CONTESTIA_16_2000", mode: Some("contestia16_2000") },
        RsidEntry { code: 51, tag: "CONTESTIA_32_1000", mode: Some("contestia32_1000") },
        RsidEntry { code: 201, tag: "CONTESTIA_32_2000", mode: Some("contestia32_2000") },
        RsidEntry { code: 194, tag: "CONTESTIA_64_500", mode: Some("contestia64_500") },
        RsidEntry { code: 193, tag: "CONTESTIA_64_1000", mode: Some("contestia64_1000") },
        RsidEntry { code: 191, tag: "CONTESTIA_64_2000", mode: Some("contestia64_2000") },
        RsidEntry { code: 56, tag: "VOICE", mode: None },
        RsidEntry { code: 60, tag: "MFSK8", mode: Some("mfsk8") },
        RsidEntry { code: 57, tag: "MFSK16", mode: Some("mfsk16") },
        RsidEntry { code: 147, tag: "MFSK32", mode: Some("mfsk32") },
        RsidEntry { code: 148, tag: "MFSK11", mode: Some("mfsk11") },
        RsidEntry { code: 152, tag: "MFSK22", mode: Some("mfsk22") },
        RsidEntry { code: 61, tag: "RTTYM_8_250", mode: None },
        RsidEntry { code: 62, tag: "RTTYM_16_500", mode: None },
        RsidEntry { code: 63, tag: "RTTYM_32_1000", mode: None },
        RsidEntry { code: 65, tag: "RTTYM_8_500", mode: None },
        RsidEntry { code: 66, tag: "RTTYM_16_1000", mode: None },
        RsidEntry { code: 67, tag: "RTTYM_4_500", mode: None },
        RsidEntry { code: 68, tag: "RTTYM_4_250", mode: None },
        RsidEntry { code: 119, tag: "RTTYM_8_1000", mode: None },
        RsidEntry { code: 170, tag: "RTTYM_8_125", mode: None },
        RsidEntry { code: 203, tag: "OLIVIA_4_125", mode: Some("olivia:tones=4,bw=125") },
        RsidEntry { code: 75, tag: "OLIVIA_4_250", mode: Some("olivia:tones=4,bw=250") },
        RsidEntry { code: 74, tag: "OLIVIA_4_500", mode: Some("olivia:tones=4,bw=500") },
        RsidEntry { code: 229, tag: "OLIVIA_4_1000", mode: Some("olivia:tones=4,bw=1000") },
        RsidEntry { code: 238, tag: "OLIVIA_4_2000", mode: Some("olivia:tones=4,bw=2000") },
        RsidEntry { code: 163, tag: "OLIVIA_8_125", mode: Some("olivia:tones=8,bw=125") },
        RsidEntry { code: 69, tag: "OLIVIA_8_250", mode: Some("olivia:tones=8,bw=250") },
        RsidEntry { code: 72, tag: "OLIVIA_8_500", mode: Some("olivia:tones=8,bw=500") },
        RsidEntry { code: 116, tag: "OLIVIA_8_1000", mode: Some("olivia:tones=8,bw=1000") },
        RsidEntry { code: 214, tag: "OLIVIA_8_2000", mode: Some("olivia:tones=8,bw=2000") },
        RsidEntry { code: 70, tag: "OLIVIA_16_500", mode: Some("olivia:tones=16,bw=500") },
        RsidEntry { code: 73, tag: "OLIVIA_16_1000", mode: Some("olivia:tones=16,bw=1000") },
        RsidEntry { code: 234, tag: "OLIVIA_16_2000", mode: Some("olivia:tones=16,bw=2000") },
        RsidEntry { code: 71, tag: "OLIVIA_32_1000", mode: Some("olivia:tones=32,bw=1000") },
        RsidEntry { code: 221, tag: "OLIVIA_32_2000", mode: Some("olivia:tones=32,bw=2000") },
        RsidEntry { code: 211, tag: "OLIVIA_64_2000", mode: Some("olivia:tones=64,bw=2000") },
        RsidEntry { code: 76, tag: "PAX", mode: None },
        RsidEntry { code: 77, tag: "PAX2", mode: None },
        RsidEntry { code: 78, tag: "DOMINOF", mode: None },
        RsidEntry { code: 79, tag: "FAX", mode: None },
        RsidEntry { code: 81, tag: "SSTV", mode: None },
        RsidEntry { code: 84, tag: "DOMINOEX_4", mode: Some("dominoex4") },
        RsidEntry { code: 85, tag: "DOMINOEX_5", mode: Some("dominoex5") },
        RsidEntry { code: 86, tag: "DOMINOEX_8", mode: Some("dominoex8") },
        RsidEntry { code: 87, tag: "DOMINOEX_11", mode: Some("dominoex11") },
        RsidEntry { code: 88, tag: "DOMINOEX_16", mode: Some("dominoex16") },
        RsidEntry { code: 90, tag: "DOMINOEX_22", mode: Some("dominoex22") },
        RsidEntry { code: 92, tag: "DOMINOEX_4_FEC", mode: None },
        RsidEntry { code: 93, tag: "DOMINOEX_5_FEC", mode: None },
        RsidEntry { code: 97, tag: "DOMINOEX_8_FEC", mode: None },
        RsidEntry { code: 98, tag: "DOMINOEX_11_FEC", mode: None },
        RsidEntry { code: 99, tag: "DOMINOEX_16_FEC", mode: None },
        RsidEntry { code: 101, tag: "DOMINOEX_22_FEC", mode: None },
        RsidEntry { code: 104, tag: "FELD_HELL", mode: Some("feldhell") },
        RsidEntry { code: 105, tag: "PSK_HELL", mode: None },
        RsidEntry { code: 106, tag: "HELL_80", mode: Some("hell80") },
        RsidEntry { code: 107, tag: "FM_HELL_105", mode: None },
        RsidEntry { code: 108, tag: "FM_HELL_245", mode: None },
        RsidEntry { code: 114, tag: "MODE_141A", mode: None },
        RsidEntry { code: 123, tag: "DTMF", mode: None },
        RsidEntry { code: 125, tag: "ALE400", mode: None },
        RsidEntry { code: 131, tag: "FDMDV", mode: None },
        RsidEntry { code: 132, tag: "JT65_A", mode: Some("jt65") },
        RsidEntry { code: 134, tag: "JT65_B", mode: None },
        RsidEntry { code: 135, tag: "JT65_C", mode: None },
        RsidEntry { code: 136, tag: "THOR_4", mode: Some("thor4") },
        RsidEntry { code: 137, tag: "THOR_8", mode: Some("thor8") },
        RsidEntry { code: 138, tag: "THOR_16", mode: Some("thor16") },
        RsidEntry { code: 139, tag: "THOR_5", mode: Some("thor5") },
        RsidEntry { code: 143, tag: "THOR_11", mode: Some("thor11") },
        RsidEntry { code: 145, tag: "THOR_22", mode: Some("thor22") },
        RsidEntry { code: 153, tag: "CALL_ID", mode: None },
        RsidEntry { code: 155, tag: "PACKET_PSK1200", mode: None },
        RsidEntry { code: 156, tag: "PACKET_PSK250", mode: None },
        RsidEntry { code: 159, tag: "PACKET_PSK63", mode: None },
        RsidEntry { code: 172, tag: "MODE_188_110A_8N1", mode: None },
        RsidEntry { code: 0, tag: "NONE", mode: None },
    ];
    assert(r@ =~= rsid_table1());
    r
}

/// The extended ID table, reached via an ESCAPE prefix.
pub fn table2() -> (r: &'static [RsidEntry])
    ensures
        r@ == rsid_table2(),
{
    let r: &'static [RsidEntry] = &[
        RsidEntry { code: 450, tag: "PSK63RX4", mode: Some("psk63rc4") },
        RsidEntry { code: 457, tag: "PSK63RX5", mode: Some("psk63rc5") },
        RsidEntry { code: 458, tag: "PSK63RX10", mode: Some("psk63rc10") },
        RsidEntry { code: 460, tag: "PSK63RX20", mode: Some("psk63rc20") },
        RsidEntry { code: 462, tag: "PSK63RX32", mode: Some("psk63rc32") },
        RsidEntry { code: 467, tag: "PSK125RX4", mode: Some("psk125rc4") },
        RsidEntry { code: 497, tag: "PSK125RX5", mode: Some("psk125rc5") },
        RsidEntry { code: 513, tag: "PSK125RX10", mode: Some("psk125rc10") },
        RsidEntry { code: 519, tag: "PSK125X12", mode: Some("psk125c12") },
        RsidEntry { code: 522, tag: "PSK125RX12", mode: Some("psk125rc12") },
        RsidEntry { code: 527, tag: "PSK125RX16", mode: Some("psk125rc16") },
        RsidEntry { code: 529, tag: "PSK250RX2", mode: Some("psk250rc2") },
        RsidEntry { code: 533, tag: "PSK250RX3", mode: Some("psk250rc3") },
        RsidEntry { code: 539, tag: "PSK250RX5", mode: Some("psk250rc5") },
        RsidEntry { code: 541, tag: "PSK250X6", mode: Some("psk250c6") },
        RsidEntry { code: 545, tag: "PSK250RX6", mode: Some("psk250rc6") },
        RsidEntry { code: 551, tag: "PSK250RX7", mode: Some("psk250rc7") },
        RsidEntry { code: 553, tag: "PSK500RX2", mode: Some("psk500rc2") },
        RsidEntry { code: 558, tag: "PSK500RX3", mode: Some("psk500rc3") },
        RsidEntry { code: 564, tag: "PSK500RX4", mode: Some("psk500rc4") },
        RsidEntry { code: 566, tag: "PSK500X2", mode: Some("psk500c2") },
        RsidEntry { code: 569, tag: "PSK500X4", mode: Some("psk500c4") },
        RsidEntry { code: 570, tag: "PSK1000", mode: Some("psk1000") },
        RsidEntry { code: 580, tag: "PSK1000R", mode: Some("psk1000r") },
        RsidEntry { code: 587, tag: "PSK1000X2", mode: Some("psk1000c2") },
        RsidEntry { code: 595, tag: "PSK1000RX2", mode: None },
        RsidEntry { code: 604, tag: "PSK800RX2", mode: None },
        RsidEntry { code: 610, tag: "PSK800X2", mode: None },
        RsidEntry { code: 620, tag: "MFSK64", mode: Some("mfsk64") },
        RsidEntry { code: 625, tag: "MFSK128", mode: Some("mfsk128") },
        RsidEntry { code: 639, tag: "THOR25x4", mode: Some("thor25x4") },
        RsidEntry { code: 649, tag: "THOR50x1", mode: Some("thor50x1") },
        RsidEntry { code: 653, tag: "THOR50x2", mode: Some("thor50x2") },
        RsidEntry { code: 658, tag: "THOR100", mode: Some("thor100") },
        RsidEntry { code: 662, tag: "DOMINOEX_44", mode: Some("dominoex44") },
        RsidEntry { code: 681, tag: "DOMINOEX_88", mode: Some("dominoex88") },
        RsidEntry { code: 687, tag: "MFSK31", mode: Some("mfsk31") },
        RsidEntry { code: 691, tag: "DOMINOEX_MICRO", mode: Some("dominoexmicro") },
        RsidEntry { code: 693, tag: "THOR_MICRO", mode: Some("thormicro") },
        RsidEntry { code: 1026, tag: "MFSK64L", mode: Some("mfsk64l") },
        RsidEntry { code: 1029, tag: "MFSK128L", mode: Some("mfsk128l") },
        RsidEntry { code: 1066, tag: "PSK8P125", mode: None },
        RsidEntry { code: 1071, tag: "PSK8P250", mode: None },
        RsidEntry { code: 1076, tag: "PSK8P500", mode: None },
        RsidEntry { code: 1047, tag: "PSK8P1000", mode: None },
        RsidEntry { code: 1037, tag: "PSK8P125F", mode: None },
        RsidEntry { code: 1038, tag: "PSK8P250F", mode: None },
        RsidEntry { code: 1043, tag: "PSK8P500F", mode: None },
        RsidEntry { code: 1078, tag: "PSK8P1000F", mode: None },
        RsidEntry { code: 1058, tag: "PSK8P1200F", mode: None },
        RsidEntry { code: 1239, tag: "PSK8P125FL", mode: None },
        RsidEntry { code: 2052, tag: "PSK8P250FL", mode: None },
        RsidEntry { code: 2053, tag: "OFDM500F", mode: None },
        RsidEntry { code: 2094, tag: "OFDM7F0F", mode: None },
        RsidEntry { code: 2118, tag: "OFDM2000", mode: None },
        RsidEntry { code: 2110, tag: "OFDM2000F", mode: None },
        RsidEntry { code: 1171, tag: "IFKP", mode: None },
        RsidEntry { code: 0, tag: "NONE2", mode: None },
    ];
    assert(r@ =~= rsid_table2());
    r
}

/// The RSID burst(s) to emit for an active mode.
#[derive(Debug, Clone, Copy, PartialEq, Eq)]
pub enum RsidTx {
    /// A single primary-table burst of this code.
    Primary(u16),
    /// An ESCAPE burst followed by this secondary-table code burst.
    Extended(u16),
}

/// Whether a table entry identifies the mode `m`.
pub open spec fn entry_is_mode(e: RsidEntry, m: Seq<char>) -> bool {
    match e.mode {
        Some(s) => s@ == m,
        None => false,
    }
}

/// The first entry of `t` at or after `i` that identifies `m`.
pub open spec fn first_for_mode(t: Seq<RsidEntry>, m: Seq<char>, i: int) -> Option<int>
    decreases t.len() - i,
{
    if i < 0 || i >= t.len() {
        None
    } else if entry_is_mode(t[i], m) {
        Some(i)
    } else {
        first_for_mode(t, m, i + 1)
    }
}

/// The burst for a mode: the first primary entry for it, else the first
/// extended entry for it, else none.
pub open spec fn rsid_tx_spec(m: Seq<char>) -> Option<RsidTx> {
    match first_for_mode(rsid_table1(), m, 0) {
        Some(k) => Some(RsidTx::Primary(rsid_table1()[k].code)),
        None => match first_for_mode(rsid_table2(), m, 0) {
            Some(k) => Some(RsidTx::Extended(rsid_table2()[k].code)),
            None => None,
        },
    }
}

fn find_mode(t: &[RsidEntry], mode: &str) -> (r: Option<usize>)
    ensures
        match r {
            Some(k) => k < t@.len() && first_for_mode(t@, mode@, 0) == Some(k as int),
            None => first_for_mode(t@, mode@, 0) is None,
        },
{
    let mut i: usize = 0;
    while i < t.len()
        invariant
            i <= t@.len(),
            first_for_mode(t@, mode@, i as int) == first_for_mode(t@, mode@, 0),
        decreases t@.len() - i,
    {
        let hit = match t[i].mode {
            Some(m) => str_eq(m, mode),
            None => false,
        };
        if hit {
            return Some(i);
        }
        i = i + 1;
    }
    None
}

/// Resolve a mode string to the RSID burst that identifies it, or `None` if
/// the mode has no assigned RSID.
pub fn tx_for_mode(mode: &str) -> (r: Option<RsidTx>)
    ensures
        r == rsid_tx_spec(mode@),
{
    let t1 = table1();
    let f1 = find_mode(t1, mode);
    if let Some(k) = f1 {
        assert(first_for_mode(rsid_table1(), mode@, 0) == Some(k as int));
        return Some(RsidTx::Primary(t1[k].code));
    }
    assert(first_for_mode(rsid_table1(), mode@, 0) is None);
    let t2 = table2();
    let f2 = find_mode(t2, mode);
    if let Some(k) = f2 {
        assert(first_for_mode(rsid_table2(), mode@, 0) == Some(k as int));
        return Some(RsidTx::Extended(t2[k].code));
    }
    None
}


// ---- receive side: matching the tone-slot ring against the ID tables -------

/// Time slices kept in the tone-slot ring.
pub const NTIMES: usize = 30;

/// Usable positive-frequency FFT bins.
pub const NBINS: usize = 1024;

/// First bin the table search reads.
pub const BIN_LO: usize = 3;

/// One past the last bin the table search reads: `NBINS - 32 - NTIMES`.
pub const BIN_HI: usize = 962;

/// Frames the extended-table window stays open after an ESCAPE: 10 gap, 15
/// symbols and 2 slack symbols at two frames per symbol.
pub const ESCAPE_WINDOW: i32 = 54;

/// Symbols of `code` among its first `k` that differ from the ring's odd rows
/// `1, 3, …, 2k - 1` in column `bin`.
pub open spec fn mismatches(rows: Seq<Seq<u8>>, bin: int, code: Seq<u8>, k: int) -> int
    decreases k,
{
    if k <= 0 {
        0
    } else {
        mismatches(rows, bin, code, k - 1) + if rows[2 * (k - 1) + 1][bin] != code[k - 1] {
            1int
        } else {
            0int
        }
    }
}

/// The distance the search compares: the mismatches of all 15 symbols,
/// counted no further than one past the resolution.
pub open spec fn capped_distance(rows: Seq<Seq<u8>>, bin: int, code: Seq<u8>, res: int) -> int {
    let m = mismatches(rows, bin, code, 15);
    if m <= res + 1 {
        m
    } else {
        res + 1
    }
}

/// The symbol sequences searched for a table: every entry but the trailing
/// sentinel, whose all-zero symbols would match silence.
pub open spec fn table_codes(t: Seq<RsidEntry>) -> Seq<Seq<u8>> {
    Seq::new((t.len() - 1) as nat, |i: int| rsid_symbols(t[i].code))
}

/// Whether `(ci, bin)` is what the table search reports: a code and bin in
/// range, within the resolution, at the least distance of all, and strictly
/// closer than every pair before it (codes first, then bins).
pub open spec fn best_match(rows: Seq<Seq<u8>>, codes: Seq<Seq<u8>>, res: int, ci: int, bin: int) -> bool {
    let d = capped_distance(rows, bin, codes[ci], res);
    &&& 0 <= ci < codes.len()
    &&& BIN_LO <= bin < BIN_HI
    &&& d <= res
    &&& forall|c: int, b: int|
        0 <= c < codes.len() && BIN_LO <= b < BIN_HI ==> #[trigger] capped_distance(
            rows,
            b,
            codes[c],
            res,
        ) >= d
    &&& forall|c: int, b: int|
        0 <= c < codes.len() && BIN_LO <= b < BIN_HI && (c < ci || (c == ci && b < bin))
            ==> #[trigger] capped_distance(rows, b, codes[c], res) > d
}

/// No code matches anywhere within the resolution.
pub open spec fn no_match(rows: Seq<Seq<u8>>, codes: Seq<Seq<u8>>, res: int) -> bool {
    forall|c: int, b: int|
        0 <= c < codes.len() && BIN_LO <= b < BIN_HI ==> #[trigger] capped_distance(
            rows,
            b,
            codes[c],
            res,
        ) > res
}

/// An all-zero ring.
pub open spec fn zero_rows() -> Seq<Seq<u8>> {
    Seq::new(NTIMES as nat, |t: int| Seq::new(NBINS as nat, |b: int| 0u8))
}

/// The search result is unique, and excludes "no match".
pub proof fn lemma_best_match_unique(
    rows: Seq<Seq<u8>>,
    codes: Seq<Seq<u8>>,
    res: int,
    c1: int,
    b1: int,
    c2: int,
    b2: int,
)
    requires
        best_match(rows, codes, res, c1, b1),
    ensures
        best_match(rows, codes, res, c2, b2) ==> c1 == c2 && b1 == b2,
        !no_match(rows, codes, res),
{
    let d1 = capped_distance(rows, b1, codes[c1], res);
    if best_match(rows, codes, res, c2, b2) {
        let d2 = capped_distance(rows, b2, codes[c2], res);
        assert(d1 <= d2 && d2 <= d1);
        if c1 < c2 || (c1 == c2 && b1 < b2) {
            assert(d1 > d2);
        } else if c2 < c1 || (c1 == c2 && b2 < b1) {
            assert(d2 > d1);
        }
    }
    assert(capped_distance(rows, b1, codes[c1], res) <= res);
}

proof fn lemma_mismatches_mono(rows: Seq<Seq<u8>>, bin: int, code: Seq<u8>, i: int, j: int)
    requires
        0 <= i <= j,
    ensures
        mismatches(rows, bin, code, i) <= mismatches(rows, bin, code, j),
        0 <= mismatches(rows, bin, code, i),
    decreases j,
{
    if j > i {
        lemma_mismatches_mono(rows, bin, code, i, j - 1);
    } else if i > 0 {
        lemma_mismatches_mono(rows, bin, code, i - 1, i - 1);
    }
}

proof fn lemma_table_codes_small()
    ensures
        forall|i: int| 0 <= i < rsid_table1().len() ==> #[trigger] rsid_table1()[i].code < 4096,
        forall|i: int| 0 <= i < rsid_table2().len() ==> #[trigger] rsid_table2()[i].code < 4096,
{
}

/// The receive-side matcher of the RSID detector: a ring of per-bin peak
/// tone slots (one row per FFT frame, oldest first), searched against both ID
/// tables. An ESCAPE hit opens a window in which the extended table is
/// searched instead.
pub struct RsidMatcher {
    buckets: Vec<Vec<u8>>,
    codes1: Vec<[u8; 15]>,
    codes2: Vec<[u8; 15]>,
    resolution: i32,
    secondary_countdown: i32,
}

/// A detection: the table entry, the bin its burst starts at, and whether it
/// came from the extended table.
#[derive(Debug, Clone, Copy)]
pub struct RsidHit {
    pub entry: RsidEntry,
    pub bin: usize,
    pub extended: bool,
}

fn zero_row() -> (r: Vec<u8>)
    ensures
        r@ == Seq::new(NBINS as nat, |b: int| 0u8),
{
    let mut r: Vec<u8> = Vec::new();
    while r.len() < NBINS
        invariant
            r.len() <= NBINS,
            forall|b: int| 0 <= b < r.len() ==> #[trigger] r@[b] == 0u8,
        decreases NBINS - r.len(),
    {
        r.push(0);
    }
    assert(r@ =~= Seq::new(NBINS as nat, |b: int| 0u8));
    r
}

fn zero_ring() -> (r: Vec<Vec<u8>>)
    ensures
        r@.len() == NTIMES,
        forall|t: int| 0 <= t < NTIMES ==> #[trigger] r@[t]@ == zero_rows()[t],
{
    let mut r: Vec<Vec<u8>> = Vec::new();
    while r.len() < NTIMES
        invariant
            r.len() <= NTIMES,
            forall|t: int| 0 <= t < r.len() ==> #[trigger] r@[t]@ == zero_rows()[t],
        decreases NTIMES - r.len(),
    {
        let z = zero_row();
        r.push(z);
    }
    r
}

fn table_symbols(t: &[RsidEntry]) -> (r: Vec<[u8; 15]>)
    requires
        t@.len() >= 1,
        forall|i: int| 0 <= i < t@.len() ==> #[trigger] t@[i].code < 4096,
    ensures
        r@.len() == t@.len() - 1,
        forall|i: int| 0 <= i < r@.len() ==> #[trigger] r@[i]@ == table_codes(t@)[i],
{
    let mut r: Vec<[u8; 15]> = Vec::new();
    let n = t.len() - 1;
    while r.len() < n
        invariant
            n == t@.len() - 1,
            r.len() <= n,
            forall|i: int| 0 <= i < t@.len() ==> #[trigger] t@[i].code < 4096,
            forall|i: int| 0 <= i < r@.len() ==> #[trigger] r@[i]@ == table_codes(t@)[i],
        decreases n - r.len(),
    {
        let e = t[r.len()];
        let sy = encode(e.code);
        r.push(sy);
    }
    r
}

impl RsidMatcher {
    /// The tone-slot ring, oldest row first.
    pub closed spec fn rows(&self) -> Seq<Seq<u8>> {
        Seq::new(self.buckets@.len(), |t: int| self.buckets@[t]@)
    }

    /// The largest symbol-mismatch count still accepted.
    pub closed spec fn resolution(&self) -> int {
        self.resolution as int
    }

    /// Frames left in the extended-table window (0: primary table).
    pub closed spec fn countdown(&self) -> int {
        self.secondary_countdown as int
    }

    /// The ring is `NTIMES` rows of `NBINS` slots, the resolution is 0..=2,
    /// and the searched symbol sequences are those of the two tables.
    pub closed spec fn wf(&self) -> bool {
        &&& self.buckets@.len() == NTIMES
        &&& forall|t: int| 0 <= t < NTIMES ==> (#[trigger] self.buckets@[t])@.len() == NBINS
        &&& 0 <= self.resolution <= 2
        &&& 0 <= self.secondary_countdown <= ESCAPE_WINDOW
        &&& self.codes1@.len() == table_codes(rsid_table1()).len()
        &&& forall|i: int| 0 <= i < self.codes1@.len() ==> #[trigger] self.codes1@[i]@ == table_codes(rsid_table1())[i]
        &&& self.codes2@.len() == table_codes(rsid_table2()).len()
        &&& forall|i: int| 0 <= i < self.codes2@.len() ==> #[trigger] self.codes2@[i]@ == table_codes(rsid_table2())[i]
    }

    /// A matcher with an all-zero ring accepting up to `resolution`
    /// mismatched symbols (at most 2; fldigi's coarse/normal/precise are
    /// 2/1/0).
    pub fn new(resolution: u8) -> (m: Self)
        ensures
            m.wf(),
            m.rows() == zero_rows(),
            m.resolution() == if resolution < 2 {
                resolution as int
            } else {
                2
            },
            m.countdown() == 0,
    {
        proof {
            lemma_table_codes_small();
        }
        let buckets = zero_ring();
        let codes1 = table_symbols(table1());
        let codes2 = table_symbols(table2());
        let res: i32 = if resolution < 2 {
            resolution as i32
        } else {
            2
        };
        let m = RsidMatcher { buckets, codes1, codes2, resolution: res, secondary_countdown: 0 };
        assert(m.rows() =~= zero_rows());
        m
    }

    /// Zero the ring and close the extended-table window, so a burst is not
    /// reported twice.
    pub fn clear_ring(&mut self)
        requires
            old(self).wf(),
        ensures
            final(self).wf(),
            final(self).rows() == zero_rows(),
            final(self).countdown() == 0,
            final(self).resolution() == old(self).resolution(),
    {
        self.buckets = zero_ring();
        self.secondary_countdown = 0;
        assert(self.rows() =~= zero_rows());
    }

    /// Distance between `code` and the ring's odd rows in column `bin`,
    /// counted no further than one past the resolution.
    fn hamming(&self, bin: usize, code: &[u8; 15]) -> (d: i32)
        requires
            self.wf(),
            bin < NBINS,
        ensures
            d == capped_distance(self.rows(), bin as int, code@, self.resolution()),
    {
        let mut dist: i32 = 0;
        let mut i: usize = 0;
        while i < 15 && dist <= self.resolution
            invariant
                self.wf(),
                bin < NBINS,
                i <= 15,
                dist == mismatches(self.rows(), bin as int, code@, i as int),
                dist <= self.resolution + 1,
            decreases 15 - i,
        {
            let row = &self.buckets[2 * i + 1];
            if row[bin] != code[i] {
                dist = dist + 1;
            }
            i = i + 1;
        }
        proof {
            lemma_mismatches_mono(self.rows(), bin as int, code@, i as int, 15);
        }
        dist
    }

    /// The best-matching (code index, bin) of one table within the
    /// resolution, or `None`.
    fn search_table(&self, primary: bool) -> (r: Option<(usize, usize)>)
        requires
            self.wf(),
        ensures
            ({
                let codes = if primary {
                    table_codes(rsid_table1())
                } else {
                    table_codes(rsid_table2())
                };
                match r {
                    Some((c, b)) => best_match(self.rows(), codes, self.resolution(), c as int, b as int),
                    None => no_match(self.rows(), codes, self.resolution()),
                }
            }),
    {
        let ghost tcodes = if primary {
            table_codes(rsid_table1())
        } else {
            table_codes(rsid_table2())
        };
        let ghost rows = self.rows();
        let ghost res = self.resolution();
        let codes = if primary {
            &self.codes1
        } else {
            &self.codes2
        };
        let mut best_dist: i32 = i32::MAX;
        let mut best: Option<(usize, usize)> = None;
        let mut ci: usize = 0;
        while ci < codes.len()
            invariant
                self.wf(),
                rows == self.rows(),
                res == self.resolution(),
                codes@.len() == tcodes.len(),
                forall|i: int| 0 <= i < codes@.len() ==> #[trigger] codes@[i]@ == tcodes[i],
                ci <= codes@.len(),
                best is None <==> best_dist == i32::MAX,
                best is None ==> ci == 0,
                forall|c: int, b: int|
                    0 <= c < ci && BIN_LO <= b < BIN_HI ==> #[trigger] capped_distance(
                        rows,
                        b,
                        tcodes[c],
                        res,
                    ) >= best_dist,
                match best {
                    Some((bc, bb)) => {
                        &&& bc < ci
                        &&& BIN_LO <= bb < BIN_HI
                        &&& capped_distance(rows, bb as int, tcodes[bc as int], res) == best_dist
                        &&& forall|c: int, b: int|
                            0 <= c < codes@.len() && BIN_LO <= b < BIN_HI && (c < bc || (c == bc
                                && b < bb)) ==> #[trigger] capped_distance(rows, b, tcodes[c], res)
                                > best_dist
                    },
                    None => true,
                },
            decreases codes@.len() - ci,
        {
            let code = &codes[ci];
            let mut bin: usize = BIN_LO;
            let mut done = false;
            while bin < BIN_HI && !done
                invariant
                    self.wf(),
                    rows == self.rows(),
                    res == self.resolution(),
                    codes@.len() == tcodes.len(),
                    ci < codes@.len(),
                    code@ == tcodes[ci as int],
                    BIN_LO <= bin <= BIN_HI,
                    best is None <==> best_dist == i32::MAX,
                    best is None ==> ci == 0 && bin == BIN_LO,
                    done ==> best_dist == 0,
                    forall|c: int, b: int|
                        0 <= c < ci && BIN_LO <= b < BIN_HI ==> #[trigger] capped_distance(
                            rows,
                            b,
                            tcodes[c],
                            res,
                        ) >= best_dist,
                    forall|b: int|
                        BIN_LO <= b < bin ==> #[trigger] capped_distance(
                            rows,
                            b,
                            tcodes[ci as int],
                            res,
                        ) >= best_dist,
                    match best {
                        Some((bc, bb)) => {
                            &&& (bc < ci || (bc == ci && bb < bin))
                            &&& BIN_LO <= bb < BIN_HI
                            &&& capped_distance(rows, bb as int, tcodes[bc as int], res) == best_dist
                            &&& forall|c: int, b: int|
                                0 <= c < codes@.len() && BIN_LO <= b < BIN_HI && (c < bc || (c
                                    == bc && b < bb)) ==> #[trigger] capped_distance(
                                    rows,
                                    b,
                                    tcodes[c],
                                    res,
                                ) > best_dist
                        },
                        None => true,
                    },
                decreases BIN_HI - bin,
            {
                let d = self.hamming(bin, code);
                if d < best_dist {
                    best_dist = d;
                    best = Some((ci, bin));
                    if d == 0 {
                        done = true;
                    }
                }
                bin = bin + 1;
            }
            proof {
                assert forall|b: int| BIN_LO <= b < BIN_HI implies #[trigger] capped_distance(
                    rows,
                    b,
                    tcodes[ci as int],
                    res,
                ) >= best_dist by {
                    lemma_mismatches_mono(rows, b, tcodes[ci as int], 0, 15);
                }
            }
            ci = ci + 1;
        }
        if best_dist <= self.resolution {
            best
        } else {
            None
        }
    }

    /// Take the next frame's row of per-bin peak tone slots (0..15): the ring
    /// moves up one row, then the primary table is searched, or, inside the
    /// window an ESCAPE opened, the extended one. A hit reports its entry and
    /// clears the ring; an ESCAPE hit opens the window instead; the window
    /// closing without a hit clears the ring.
    pub fn push_row(&mut self, row: Vec<u8>) -> (r: Option<RsidHit>)
        requires
            old(self).wf(),
            row@.len() == NBINS,
        ensures
            final(self).wf(),
            final(self).resolution() == old(self).resolution(),
            ({
                let rows1 = old(self).rows().drop_first().push(row@);
                let res = old(self).resolution();
                let cd = old(self).countdown() - 1;
                &&& (old(self).countdown() <= 0 && no_match(rows1, table_codes(rsid_table1()), res))
                    ==> r is None && final(self).rows() == rows1 && final(self).countdown() == 0
                &&& forall|c: int, b: int|
                    old(self).countdown() <= 0 && #[trigger] best_match(
                        rows1,
                        table_codes(rsid_table1()),
                        res,
                        c,
                        b,
                    ) ==> if rsid_table1()[c].code == RSID_ESCAPE {
                        r is None && final(self).rows() == rows1 && final(self).countdown()
                            == ESCAPE_WINDOW
                    } else {
                        r == Some(RsidHit { entry: rsid_table1()[c], bin: b as usize, extended: false })
                            && final(self).rows() == zero_rows() && final(self).countdown() == 0
                    }
                &&& (old(self).countdown() > 0 && no_match(rows1, table_codes(rsid_table2()), res))
                    ==> r is None && if cd <= 0 {
                        final(self).rows() == zero_rows() && final(self).countdown() == 0
                    } else {
                        final(self).rows() == rows1 && final(self).countdown() == cd
                    }
                &&& forall|c: int, b: int|
                    old(self).countdown() > 0 && #[trigger] best_match(
                        rows1,
                        table_codes(rsid_table2()),
                        res,
                        c,
                        b,
                    ) ==> r == (if rsid_table2()[c].code != 0 {
                        Some(RsidHit { entry: rsid_table2()[c], bin: b as usize, extended: true })
                    } else {
                        None
                    }) && final(self).rows() == zero_rows() && final(self).countdown() == 0
            }),
    {
        let ghost res = self.resolution();
        let ghost rows1 = self.rows().drop_first().push(row@);
        self.buckets.remove(0);
        self.buckets.push(row);
        assert(self.rows() =~= rows1);
        if self.secondary_countdown <= 0 {
            match self.search_table(true) {
                Some((idx, bin)) => {
                    proof {
                        lemma_search_result(rows1, table_codes(rsid_table1()), res, idx as int, bin as int);
                    }
                    let t1 = table1();
                    let en = t1[idx];
                    if en.code == RSID_ESCAPE {
                        self.secondary_countdown = ESCAPE_WINDOW;
                        None
                    } else {
                        self.clear_ring();
                        Some(RsidHit { entry: en, bin, extended: false })
                    }
                },
                None => {
                    proof {
                        lemma_no_match_excludes(rows1, table_codes(rsid_table1()), res);
                    }
                    None
                },
            }
        } else {
            self.secondary_countdown = self.secondary_countdown - 1;
            match self.search_table(false) {
                Some((idx, bin)) => {
                    proof {
                        lemma_search_result(rows1, table_codes(rsid_table2()), res, idx as int, bin as int);
                    }
                    let t2 = table2();
                    let en = t2[idx];
                    self.clear_ring();
                    if en.code != 0 {
                        Some(RsidHit { entry: en, bin, extended: true })
                    } else {
                        None
                    }
                },
                None => {
                    proof {
                        lemma_no_match_excludes(rows1, table_codes(rsid_table2()), res);
                    }
                    if self.secondary_countdown <= 0 {
                        self.clear_ring();
                    }
                    None
                },
            }
        }
    }
}

proof fn lemma_search_result(rows: Seq<Seq<u8>>, codes: Seq<Seq<u8>>, res: int, c1: int, b1: int)
    requires
        best_match(rows, codes, res, c1, b1),
    ensures
        forall|c: int, b: int| #[trigger] best_match(rows, codes, res, c, b) ==> c == c1 && b == b1,
        !no_match(rows, codes, res),
{
    assert forall|c: int, b: int| #[trigger] best_match(rows, codes, res, c, b) implies c == c1 && b
        == b1 by {
        lemma_best_match_unique(rows, codes, res, c1, b1, c, b);
    }
    lemma_best_match_unique(rows, codes, res, c1, b1, c1, b1);
}

proof fn lemma_no_match_excludes(rows: Seq<Seq<u8>>, codes: Seq<Seq<u8>>, res: int)
    requires
        no_match(rows, codes, res),
    ensures
        forall|c: int, b: int| !#[trigger] best_match(rows, codes, res, c, b),
{
    assert forall|c: int, b: int| !#[trigger] best_match(rows, codes, res, c, b) by {
        if best_match(rows, codes, res, c, b) {
            lemma_best_match_unique(rows, codes, res, c, b, c, b);
        }
    }
}

} // verus!
