//! The single-bit syndromes of Mode S frames: every bit of a 56- or 112-bit
//! frame has its own nonzero CRC syndrome, so a frame damaged in exactly one
//! bit is always repaired, and repaired at that bit.
use vstd::prelude::*;
use crate::adsb::crc::{
    crc, crc_byte, flip_bit, lemma_repair_restores_clean, repair_position, shift8,
    syndrome, unit_frame,
};

verus! {

/// The syndrome of the bit with `e` bits after it in its frame (0 = the
/// last bit), for `e < 112`.
pub open spec fn tail_syndrome(e: int) -> u32 {
    if e == 0 {
        0xFFF409u32
    } else if e == 1 {
        0x001C1Bu32
    } else if e == 2 {
        0x003836u32
    } else if e == 3 {
        0x00706Cu32
    } else if e == 4 {
        0x00E0D8u32
    } else if e == 5 {
        0x01C1B0u32
    } else if e == 6 {
        0x038360u32
    } else if e == 7 {
        0x0706C0u32
    } else if e == 8 {
        0x0E0D80u32
    } else if e == 9 {
        0x1C1B00u32
    } else if e == 10 {
        0x383600u32
    } else if e == 11 {
        0x706C00u32
    } else if e == 12 {
        0xE0D800u32
    } else if e == 13 {
        0x3E4409u32
    } else if e == 14 {
        0x7C8812u32
    } else if e == 15 {
        0xF91024u32
    } else if e == 16 {
        0x0DD441u32
    } else if e == 17 {
        0x1BA882u32
    } else if e == 18 {
        0x375104u32
    } else if e == 19 {
        0x6EA208u32
    } else if e == 20 {
        0xDD4410u32
    } else if e == 21 {
        0x457C29u32
    } else if e == 22 {
        0x8AF852u32
    } else if e == 23 {
        0xEA04ADu32
    } else if e == 24 {
        0x2BFD53u32
    } else if e == 25 {
        0x57FAA6u32
    } else if e == 26 {
        0xAFF54Cu32
    } else if e == 27 {
        0xA01E91u32
    } else if e == 28 {
        0xBFC92Bu32
    } else if e == 29 {
        0x80665Fu32
    } else if e == 30 {
        0xFF38B7u32
    } else if e == 31 {
        0x018567u32
    } else if e == 32 {
        0x030ACEu32
    } else if e == 33 {
        0x06159Cu32
    } else if e == 34 {
        0x0C2B38u32
    } else if e == 35 {
        0x185670u32
    } else if e == 36 {
        0x30ACE0u32
    } else if e == 37 {
        0x6159C0u32
    } else if e == 38 {
        0xC2B380u32
    } else if e == 39 {
        0x7A9309u32
    } else if e == 40 {
        0xF52612u32
    } else if e == 41 {
        0x15B82Du32
    } else if e == 42 {
        0x2B705Au32
    } else if e == 43 {
        0x56E0B4u32
    } else if e == 44 {
        0xADC168u32
    } else if e == 45 {
        0xA476D9u32
    } else if e == 46 {
        0xB719BBu32
    } else if e == 47 {
        0x91C77Fu32
    } else if e == 48 {
        0xDC7AF7u32
    } else if e == 49 {
        0x4701E7u32
    } else if e == 50 {
        0x8E03CEu32
    } else if e == 51 {
        0xE3F395u32
    } else if e == 52 {
        0x381323u32
    } else if e == 53 {
        0x702646u32
    } else if e == 54 {
        0xE04C8Cu32
    } else if e == 55 {
        0x3F6D11u32
    } else if e == 56 {
        0x7EDA22u32
    } else if e == 57 {
        0xFDB444u32
    } else if e == 58 {
        0x049C81u32
    } else if e == 59 {
        0x093902u32
    } else if e == 60 {
        0x127204u32
    } else if e == 61 {
        0x24E408u32
    } else if e == 62 {
        0x49C810u32
    } else if e == 63 {
        0x939020u32
    } else if e == 64 {
        0xD8D449u32
    } else if e == 65 {
        0x4E5C9Bu32
    } else if e == 66 {
        0x9CB936u32
    } else if e == 67 {
        0xC68665u32
    } else if e == 68 {
        0x72F8C3u32
    } else if e == 69 {
        0xE5F186u32
    } else if e == 70 {
        0x341705u32
    } else if e == 71 {
        0x682E0Au32
    } else if e == 72 {
        0xD05C14u32
    } else if e == 73 {
        0x5F4C21u32
    } else if e == 74 {
        0xBE9842u32
    } else if e == 75 {
        0x82C48Du32
    } else if e == 76 {
        0xFA7D13u32
    } else if e == 77 {
        0x0B0E2Fu32
    } else if e == 78 {
        0x161C5Eu32
    } else if e == 79 {
        0x2C38BCu32
    } else if e == 80 {
        0x587178u32
    } else if e == 81 {
        0xB0E2F0u32
    } else if e == 82 {
        0x9E31E9u32
    } else if e == 83 {
        0xC397DBu32
    } else if e == 84 {
        0x78DBBFu32
    } else if e == 85 {
        0xF1B77Eu32
    } else if e == 86 {
        0x1C9AF5u32
    } else if e == 87 {
        0x3935EAu32
    } else if e == 88 {
        0x726BD4u32
    } else if e == 89 {
        0xE4D7A8u32
    } else if e == 90 {
        0x365B59u32
    } else if e == 91 {
        0x6CB6B2u32
    } else if e == 92 {
        0xD96D64u32
    } else if e == 93 {
        0x4D2EC1u32
    } else if e == 94 {
        0x9A5D82u32
    } else if e == 95 {
        0xCB4F0Du32
    } else if e == 96 {
        0x696A13u32
    } else if e == 97 {
        0xD2D426u32
    } else if e == 98 {
        0x5A5C45u32
    } else if e == 99 {
        0xB4B88Au32
    } else if e == 100 {
        0x96851Du32
    } else if e == 101 {
        0xD2FE33u32
    } else if e == 102 {
        0x5A086Fu32
    } else if e == 103 {
        0xB410DEu32
    } else if e == 104 {
        0x97D5B5u32
    } else if e == 105 {
        0xD05F63u32
    } else if e == 106 {
        0x5F4ACFu32
    } else if e == 107 {
        0xBE959Eu32
    } else if e == 108 {
        0x82DF35u32
    } else if e == 109 {
        0xFA4A63u32
    } else if e == 110 {
        0x0B60CFu32
    } else if e == 111 {
        0x16C19Eu32
    } else {
        0u32
    }
}

/// The distance from the end of a syndrome of [`tail_syndrome`], or 112 for
/// any other value.
spec fn tail_of(v: u32) -> int {
    if v == 0xFFF409u32 {
        0
    } else if v == 0x001C1Bu32 {
        1
    } else if v == 0x003836u32 {
        2
    } else if v == 0x00706Cu32 {
        3
    } else if v == 0x00E0D8u32 {
        4
    } else if v == 0x01C1B0u32 {
        5
    } else if v == 0x038360u32 {
        6
    } else if v == 0x0706C0u32 {
        7
    } else if v == 0x0E0D80u32 {
        8
    } else if v == 0x1C1B00u32 {
        9
    } else if v == 0x383600u32 {
        10
    } else if v == 0x706C00u32 {
        11
    } else if v == 0xE0D800u32 {
        12
    } else if v == 0x3E4409u32 {
        13
    } else if v == 0x7C8812u32 {
        14
    } else if v == 0xF91024u32 {
        15
    } else if v == 0x0DD441u32 {
        16
    } else if v == 0x1BA882u32 {
        17
    } else if v == 0x375104u32 {
        18
    } else if v == 0x6EA208u32 {
        19
    } else if v == 0xDD4410u32 {
        20
    } else if v == 0x457C29u32 {
        21
    } else if v == 0x8AF852u32 {
        22
    } else if v == 0xEA04ADu32 {
        23
    } else if v == 0x2BFD53u32 {
        24
    } else if v == 0x57FAA6u32 {
        25
    } else if v == 0xAFF54Cu32 {
        26
    } else if v == 0xA01E91u32 {
        27
    } else if v == 0xBFC92Bu32 {
        28
    } else if v == 0x80665Fu32 {
        29
    } else if v == 0xFF38B7u32 {
        30
    } else if v == 0x018567u32 {
        31
    } else if v == 0x030ACEu32 {
        32
    } else if v == 0x06159Cu32 {
        33
    } else if v == 0x0C2B38u32 {
        34
    } else if v == 0x185670u32 {
        35
    } else if v == 0x30ACE0u32 {
        36
    } else if v == 0x6159C0u32 {
        37
    } else if v == 0xC2B380u32 {
        38
    } else if v == 0x7A9309u32 {
        39
    } else if v == 0xF52612u32 {
        40
    } else if v == 0x15B82Du32 {
        41
    } else if v == 0x2B705Au32 {
        42
    } else if v == 0x56E0B4u32 {
        43
    } else if v == 0xADC168u32 {
        44
    } else if v == 0xA476D9u32 {
        45
    } else if v == 0xB719BBu32 {
        46
    } else if v == 0x91C77Fu32 {
        47
    } else if v == 0xDC7AF7u32 {
        48
    } else if v == 0x4701E7u32 {
        49
    } else if v == 0x8E03CEu32 {
        50
    } else if v == 0xE3F395u32 {
        51
    } else if v == 0x381323u32 {
        52
    } else if v == 0x702646u32 {
        53
    } else if v == 0xE04C8Cu32 {
        54
    } else if v == 0x3F6D11u32 {
        55
    } else if v == 0x7EDA22u32 {
        56
    } else if v == 0xFDB444u32 {
        57
    } else if v == 0x049C81u32 {
        58
    } else if v == 0x093902u32 {
        59
    } else if v == 0x127204u32 {
        60
    } else if v == 0x24E408u32 {
        61
    } else if v == 0x49C810u32 {
        62
    } else if v == 0x939020u32 {
        63
    } else if v == 0xD8D449u32 {
        64
    } else if v == 0x4E5C9Bu32 {
        65
    } else if v == 0x9CB936u32 {
        66
    } else if v == 0xC68665u32 {
        67
    } else if v == 0x72F8C3u32 {
        68
    } else if v == 0xE5F186u32 {
        69
    } else if v == 0x341705u32 {
        70
    } else if v == 0x682E0Au32 {
        71
    } else if v == 0xD05C14u32 {
        72
    } else if v == 0x5F4C21u32 {
        73
    } else if v == 0xBE9842u32 {
        74
    } else if v == 0x82C48Du32 {
        75
    } else if v == 0xFA7D13u32 {
        76
    } else if v == 0x0B0E2Fu32 {
        77
    } else if v == 0x161C5Eu32 {
        78
    } else if v == 0x2C38BCu32 {
        79
    } else if v == 0x587178u32 {
        80
    } else if v == 0xB0E2F0u32 {
        81
    } else if v == 0x9E31E9u32 {
        82
    } else if v == 0xC397DBu32 {
        83
    } else if v == 0x78DBBFu32 {
        84
    } else if v == 0xF1B77Eu32 {
        85
    } else if v == 0x1C9AF5u32 {
        86
    } else if v == 0x3935EAu32 {
        87
    } else if v == 0x726BD4u32 {
        88
    } else if v == 0xE4D7A8u32 {
        89
    } else if v == 0x365B59u32 {
        90
    } else if v == 0x6CB6B2u32 {
        91
    } else if v == 0xD96D64u32 {
        92
    } else if v == 0x4D2EC1u32 {
        93
    } else if v == 0x9A5D82u32 {
        94
    } else if v == 0xCB4F0Du32 {
        95
    } else if v == 0x696A13u32 {
        96
    } else if v == 0xD2D426u32 {
        97
    } else if v == 0x5A5C45u32 {
        98
    } else if v == 0xB4B88Au32 {
        99
    } else if v == 0x96851Du32 {
        100
    } else if v == 0xD2FE33u32 {
        101
    } else if v == 0x5A086Fu32 {
        102
    } else if v == 0xB410DEu32 {
        103
    } else if v == 0x97D5B5u32 {
        104
    } else if v == 0xD05F63u32 {
        105
    } else if v == 0x5F4ACFu32 {
        106
    } else if v == 0xBE959Eu32 {
        107
    } else if v == 0x82DF35u32 {
        108
    } else if v == 0xFA4A63u32 {
        109
    } else if v == 0x0B60CFu32 {
        110
    } else if v == 0x16C19Eu32 {
        111
    } else {
        112
    }
}

/// The register steps that produce the syndromes, evaluated once.
proof fn lemma_syndrome_steps()
    by (bit_vector)
    ensures
        crc_byte(0u32, 0u8) == 0u32,
        forall|r: u32| r <= 0x00FF_FFFFu32 ==> #[trigger] crc_byte(r, 0u8) == shift8(r),
        (1u8 << 0u8) == 1u8,
        crc_byte(0u32, 1u8) == 0xFFF409u32,
        (1u8 << 1u8) == 2u8,
        crc_byte(0u32, 2u8) == 0x001C1Bu32,
        (1u8 << 2u8) == 4u8,
        crc_byte(0u32, 4u8) == 0x003836u32,
        (1u8 << 3u8) == 8u8,
        crc_byte(0u32, 8u8) == 0x00706Cu32,
        (1u8 << 4u8) == 16u8,
        crc_byte(0u32, 16u8) == 0x00E0D8u32,
        (1u8 << 5u8) == 32u8,
        crc_byte(0u32, 32u8) == 0x01C1B0u32,
        (1u8 << 6u8) == 64u8,
        crc_byte(0u32, 64u8) == 0x038360u32,
        (1u8 << 7u8) == 128u8,
        crc_byte(0u32, 128u8) == 0x0706C0u32,
        shift8(0xFFF409u32) == 0x0E0D80u32,
        shift8(0x001C1Bu32) == 0x1C1B00u32,
        shift8(0x003836u32) == 0x383600u32,
        shift8(0x00706Cu32) == 0x706C00u32,
        shift8(0x00E0D8u32) == 0xE0D800u32,
        shift8(0x01C1B0u32) == 0x3E4409u32,
        shift8(0x038360u32) == 0x7C8812u32,
        shift8(0x0706C0u32) == 0xF91024u32,
        shift8(0x0E0D80u32) == 0x0DD441u32,
        shift8(0x1C1B00u32) == 0x1BA882u32,
        shift8(0x383600u32) == 0x375104u32,
        shift8(0x706C00u32) == 0x6EA208u32,
        shift8(0xE0D800u32) == 0xDD4410u32,
        shift8(0x3E4409u32) == 0x457C29u32,
        shift8(0x7C8812u32) == 0x8AF852u32,
        shift8(0xF91024u32) == 0xEA04ADu32,
        shift8(0x0DD441u32) == 0x2BFD53u32,
        shift8(0x1BA882u32) == 0x57FAA6u32,
        shift8(0x375104u32) == 0xAFF54Cu32,
        shift8(0x6EA208u32) == 0xA01E91u32,
        shift8(0xDD4410u32) == 0xBFC92Bu32,
        shift8(0x457C29u32) == 0x80665Fu32,
        shift8(0x8AF852u32) == 0xFF38B7u32,
        shift8(0xEA04ADu32) == 0x018567u32,
        shift8(0x2BFD53u32) == 0x030ACEu32,
        shift8(0x57FAA6u32) == 0x06159Cu32,
        shift8(0xAFF54Cu32) == 0x0C2B38u32,
        shift8(0xA01E91u32) == 0x185670u32,
        shift8(0xBFC92Bu32) == 0x30ACE0u32,
        shift8(0x80665Fu32) == 0x6159C0u32,
        shift8(0xFF38B7u32) == 0xC2B380u32,
        shift8(0x018567u32) == 0x7A9309u32,
        shift8(0x030ACEu32) == 0xF52612u32,
        shift8(0x06159Cu32) == 0x15B82Du32,
        shift8(0x0C2B38u32) == 0x2B705Au32,
        shift8(0x185670u32) == 0x56E0B4u32,
        shift8(0x30ACE0u32) == 0xADC168u32,
        shift8(0x6159C0u32) == 0xA476D9u32,
        shift8(0xC2B380u32) == 0xB719BBu32,
        shift8(0x7A9309u32) == 0x91C77Fu32,
        shift8(0xF52612u32) == 0xDC7AF7u32,
        shift8(0x15B82Du32) == 0x4701E7u32,
        shift8(0x2B705Au32) == 0x8E03CEu32,
        shift8(0x56E0B4u32) == 0xE3F395u32,
        shift8(0xADC168u32) == 0x381323u32,
        shift8(0xA476D9u32) == 0x702646u32,
        shift8(0xB719BBu32) == 0xE04C8Cu32,
        shift8(0x91C77Fu32) == 0x3F6D11u32,
        shift8(0xDC7AF7u32) == 0x7EDA22u32,
        shift8(0x4701E7u32) == 0xFDB444u32,
        shift8(0x8E03CEu32) == 0x049C81u32,
        shift8(0xE3F395u32) == 0x093902u32,
        shift8(0x381323u32) == 0x127204u32,
        shift8(0x702646u32) == 0x24E408u32,
        shift8(0xE04C8Cu32) == 0x49C810u32,
        shift8(0x3F6D11u32) == 0x939020u32,
        shift8(0x7EDA22u32) == 0xD8D449u32,
        shift8(0xFDB444u32) == 0x4E5C9Bu32,
        shift8(0x049C81u32) == 0x9CB936u32,
        shift8(0x093902u32) == 0xC68665u32,
        shift8(0x127204u32) == 0x72F8C3u32,
        shift8(0x24E408u32) == 0xE5F186u32,
        shift8(0x49C810u32) == 0x341705u32,
        shift8(0x939020u32) == 0x682E0Au32,
        shift8(0xD8D449u32) == 0xD05C14u32,
        shift8(0x4E5C9Bu32) == 0x5F4C21u32,
        shift8(0x9CB936u32) == 0xBE9842u32,
        shift8(0xC68665u32) == 0x82C48Du32,
        shift8(0x72F8C3u32) == 0xFA7D13u32,
        shift8(0xE5F186u32) == 0x0B0E2Fu32,
        shift8(0x341705u32) == 0x161C5Eu32,
        shift8(0x682E0Au32) == 0x2C38BCu32,
        shift8(0xD05C14u32) == 0x587178u32,
        shift8(0x5F4C21u32) == 0xB0E2F0u32,
        shift8(0xBE9842u32) == 0x9E31E9u32,
        shift8(0x82C48Du32) == 0xC397DBu32,
        shift8(0xFA7D13u32) == 0x78DBBFu32,
        shift8(0x0B0E2Fu32) == 0xF1B77Eu32,
        shift8(0x161C5Eu32) == 0x1C9AF5u32,
        shift8(0x2C38BCu32) == 0x3935EAu32,
        shift8(0x587178u32) == 0x726BD4u32,
        shift8(0xB0E2F0u32) == 0xE4D7A8u32,
        shift8(0x9E31E9u32) == 0x365B59u32,
        shift8(0xC397DBu32) == 0x6CB6B2u32,
        shift8(0x78DBBFu32) == 0xD96D64u32,
        shift8(0xF1B77Eu32) == 0x4D2EC1u32,
        shift8(0x1C9AF5u32) == 0x9A5D82u32,
        shift8(0x3935EAu32) == 0xCB4F0Du32,
        shift8(0x726BD4u32) == 0x696A13u32,
        shift8(0xE4D7A8u32) == 0xD2D426u32,
        shift8(0x365B59u32) == 0x5A5C45u32,
        shift8(0x6CB6B2u32) == 0xB4B88Au32,
        shift8(0xD96D64u32) == 0x96851Du32,
        shift8(0x4D2EC1u32) == 0xD2FE33u32,
        shift8(0x9A5D82u32) == 0x5A086Fu32,
        shift8(0xCB4F0Du32) == 0xB410DEu32,
        shift8(0x696A13u32) == 0x97D5B5u32,
        shift8(0xD2D426u32) == 0xD05F63u32,
        shift8(0x5A5C45u32) == 0x5F4ACFu32,
        shift8(0xB4B88Au32) == 0xBE959Eu32,
        shift8(0x96851Du32) == 0x82DF35u32,
        shift8(0xD2FE33u32) == 0xFA4A63u32,
        shift8(0x5A086Fu32) == 0x0B60CFu32,
        shift8(0xB410DEu32) == 0x16C19Eu32,
{
}
#[verifier::spinoff_prover]
#[verifier::rlimit(100)]
proof fn lemma_tail_step(e: int)
    requires
        0 <= e < 104,
    ensures
        tail_syndrome(e) <= 0x00FF_FFFF,
        shift8(tail_syndrome(e)) == tail_syndrome(e + 8),
{
    lemma_syndrome_steps();
}

proof fn lemma_tail_distinct(e: int)
    requires
        0 <= e < 112,
    ensures
        tail_syndrome(e) != 0,
        tail_of(tail_syndrome(e)) == e,
{
}

proof fn lemma_prefix_zero(p: int, nb: int, k: int)
    requires
        0 <= p,
        p / 8 < nb,
        0 <= k <= p / 8,
    ensures
        crc(unit_frame(p, nb).take(k)) == 0,
    decreases k,
{
    if k > 0 {
        lemma_prefix_zero(p, nb, k - 1);
        lemma_syndrome_steps();
        let u = unit_frame(p, nb);
        assert(u.take(k).drop_last() =~= u.take(k - 1));
        assert(u.take(k).last() == 0u8);
    }
}

proof fn lemma_first_byte(p: int, nb: int)
    requires
        0 <= p,
        p / 8 < nb,
    ensures
        crc(unit_frame(p, nb).take(p / 8 + 1)) == tail_syndrome(7 - p % 8),
{
    let u = unit_frame(p, nb);
    let k = p / 8 + 1;
    lemma_prefix_zero(p, nb, k - 1);
    lemma_syndrome_steps();
    assert(u.take(k).drop_last() =~= u.take(k - 1));
    let j = 7 - p % 8;
    assert(u.take(k).last() == (1u8 << (j as u8)) as u8);
    assert(crc(u.take(k)) == crc_byte(0u32, (1u8 << (j as u8)) as u8));
    if j == 0 {
    } else if j == 1 {
    } else if j == 2 {
    } else if j == 3 {
    } else if j == 4 {
    } else if j == 5 {
    } else if j == 6 {
    } else {
    }
}

proof fn lemma_later_bytes(p: int, nb: int, k: int)
    requires
        0 <= p,
        p / 8 < k <= nb <= 14,
    ensures
        crc(unit_frame(p, nb).take(k)) == tail_syndrome(8 * (k - 1 - p / 8) + 7 - p % 8),
    decreases k,
{
    let u = unit_frame(p, nb);
    if k == p / 8 + 1 {
        lemma_first_byte(p, nb);
    } else {
        lemma_later_bytes(p, nb, k - 1);
        lemma_syndrome_steps();
        let e = 8 * (k - 2 - p / 8) + 7 - p % 8;
        lemma_tail_step(e);
        assert(u.take(k).drop_last() =~= u.take(k - 1));
        assert(u.take(k).last() == 0u8);
        assert(crc(u.take(k)) == crc_byte(tail_syndrome(e), 0u8));
        assert(8 * (k - 1 - p / 8) + 7 - p % 8 == e + 8);
    }
}

/// The syndrome of bit `p` in an `nbits`-bit frame (a whole number of bytes,
/// at most 112 bits) is the one of the bit with `nbits - 1 - p` bits after it.
pub proof fn lemma_syndrome_by_tail(p: int, nbits: int)
    requires
        nbits % 8 == 0,
        8 <= nbits <= 112,
        0 <= p < nbits,
    ensures
        syndrome(p, nbits) == tail_syndrome(nbits - 1 - p),
{
    let nb = nbits / 8;
    lemma_later_bytes(p, nb, nb);
    assert(unit_frame(p, nb).take(nb) =~= unit_frame(p, nb));
}

/// Every bit of a 56- or 112-bit frame has a nonzero CRC syndrome, and no two
/// bits of it share one.
pub proof fn lemma_single_bit_syndromes(nbits: int, p: int, q: int)
    requires
        nbits == 56 || nbits == 112,
        0 <= p < nbits,
        0 <= q < nbits,
    ensures
        syndrome(p, nbits) != 0,
        p != q ==> syndrome(p, nbits) != syndrome(q, nbits),
{
    lemma_syndrome_by_tail(p, nbits);
    lemma_syndrome_by_tail(q, nbits);
    lemma_tail_distinct(nbits - 1 - p);
    lemma_tail_distinct(nbits - 1 - q);
}

/// A 56- or 112-bit frame that checksums clean and is then damaged in any one
/// bit has a nonzero residual, the single-bit repair names exactly that bit,
/// and flipping it back gives the clean frame.
pub proof fn lemma_single_bit_repair(clean: Seq<u8>, p: int)
    requires
        clean.len() == 7 || clean.len() == 14,
        crc(clean) == 0,
        0 <= p < clean.len() * 8,
    ensures
        crc(flip_bit(clean, p)) == syndrome(p, (clean.len() * 8) as int),
        crc(flip_bit(clean, p)) != 0,
        repair_position(crc(flip_bit(clean, p)), (clean.len() * 8) as int) == Some(p),
        flip_bit(flip_bit(clean, p), p) == clean,
{
    let n = (clean.len() * 8) as int;
    lemma_single_bit_syndromes(n, p, p);
    assert forall|q: int| 0 <= q < p implies #[trigger] syndrome(q, n) != syndrome(p, n) by {
        lemma_single_bit_syndromes(n, p, q);
    }
    lemma_repair_restores_clean(clean, p);
}

} // verus!
