//! Mode S / ADS-B message construction and field decoding.
//!
//! A focused decoder for the extended-squitter formats: downlink format, ICAO
//! address, type code, aircraft identification (callsign) and airborne
//! position (CPR fraction + barometric altitude). Frame construction is the
//! inverse, so a callsign round-trips through an encoded frame.
use vstd::prelude::*;
use super::crc;
use crate::text::{string_from_chars, str_chars};

verus! {

/// Extended squitter downlink format (ADS-B).
pub const DF_ADSB: u8 = 17;
/// Default transponder capability for a DF17 broadcast.
pub const CA_LEVEL2: u8 = 5;

/// Bit `i` of `msg`, most significant bit of byte 0 first.
pub open spec fn bit_at(msg: Seq<u8>, i: int) -> u32 {
    ((msg[i / 8] >> ((7 - i % 8) as u8)) & 1u8) as u32
}

/// The `len`-bit big-endian field of `msg` starting at bit `start`.
pub open spec fn field(msg: Seq<u8>, start: int, len: nat) -> nat
    decreases len,
{
    if len == 0 {
        0
    } else {
        field(msg, start, (len - 1) as nat) * 2 + bit_at(msg, start + len - 1) as nat
    }
}

/// A `len`-bit field is below `2^len`.
pub proof fn lemma_field_bound(msg: Seq<u8>, start: int, len: nat)
    ensures
        field(msg, start, len) < vstd::arithmetic::power2::pow2(len),
    decreases len,
{
    if len > 0 {
        lemma_field_bound(msg, start, (len - 1) as nat);
        vstd::arithmetic::power2::lemma_pow2_unfold(len);
        let b = msg[(start + len - 1) / 8] >> ((7 - (start + len - 1) % 8) as u8);
        assert(b & 1u8 <= 1u8) by (bit_vector);
    } else {
        vstd::arithmetic::power2::lemma2_to64();
    }
}

/// Read `len` bits (`<= 32`) from `msg`, most significant first, starting at
/// bit `start`.
fn get_bits(msg: &[u8], start: usize, len: usize) -> (v: u32)
    requires
        len <= 32,
        start + len <= msg@.len() * 8,
        start + len <= usize::MAX,
    ensures
        v as nat == field(msg@, start as int, len as nat),
{
    let mut v: u32 = 0;
    for k in 0..len
        invariant
            len <= 32,
            start + len <= msg@.len() * 8,
            start + len <= usize::MAX,
            v as nat == field(msg@, start as int, k as nat),
    {
        let bit = start + k;
        let byte = msg[bit / 8];
        let sh: u8 = (7 - bit % 8) as u8;
        let set: u8 = (byte >> sh) & 1;
        proof {
            lemma_field_bound(msg@, start as int, k as nat);
            vstd::arithmetic::power2::lemma_pow2_strictly_increases(k as nat, 32);
            vstd::arithmetic::power2::lemma2_to64();
            assert(set <= 1u8) by (bit_vector)
                requires
                    set == (byte >> sh) & 1,
            ;
            assert(v < 0x8000_0000u32);
            assert((v << 1u32) | (set as u32) == v * 2 + set) by (bit_vector)
                requires
                    v < 0x8000_0000u32,
                    set <= 1u8,
            ;
        }
        v = (v << 1u32) | set as u32;
    }
    v
}

/// The 6-bit identification charset: index to ASCII, `#` marking the reserved
/// slots that decoding skips.
pub open spec fn ident_char(idx: int) -> u8 {
    if 1 <= idx <= 26 {
        (64 + idx) as u8
    } else if idx == 32 {
        32u8
    } else if 48 <= idx <= 57 {
        idx as u8
    } else {
        35u8
    }
}

fn ident_charset(idx: u32) -> (c: u8)
    requires
        idx < 64,
    ensures
        c == ident_char(idx as int),
{
    if 1 <= idx && idx <= 26 {
        (64 + idx) as u8
    } else if idx == 32 {
        32u8
    } else if 48 <= idx && idx <= 57 {
        idx as u8
    } else {
        35u8
    }
}

/// The characters the callsign field of `msg` decodes to before trailing
/// spaces are trimmed: the eight 6-bit codes from message bit 40, reserved
/// codes skipped.
pub open spec fn callsign_raw(msg: Seq<u8>, n: nat) -> Seq<char>
    decreases n,
{
    if n == 0 {
        Seq::empty()
    } else {
        let prev = callsign_raw(msg, (n - 1) as nat);
        let ch = ident_char(field(msg, 40 + 6 * (n - 1), 6) as int);
        if ch == 35u8 {
            prev
        } else {
            prev.push(ch as char)
        }
    }
}

/// `s` without its trailing spaces.
pub open spec fn trim_trailing_spaces(s: Seq<char>) -> Seq<char>
    decreases s.len(),
{
    if s.len() > 0 && s.last() == ' ' {
        trim_trailing_spaces(s.drop_last())
    } else {
        s
    }
}

/// Decode a 12-bit AC altitude field to feet (25 ft Q-bit encoding); 100 ft
/// Gillham-coded altitudes and the all-zero field give `None`.
pub open spec fn ac12_feet(ac: u16) -> Option<i32> {
    if ac == 0 || ac & 0x10 == 0 {
        None
    } else {
        Some(((((ac & 0x0FE0) >> 1u16) | (ac & 0x000F)) as int * 25 - 1000) as i32)
    }
}

proof fn lemma_ac12_fields(n: u16, ac: u16)
    by (bit_vector)
    requires
        n < 2048,
        ac == (n / 16) * 32 + 16 + n % 16,
    ensures
        ac != 0,
        ac & 0x10 != 0,
        (((ac & 0x0FE0) >> 1u16) | (ac & 0x000F)) == n,
{
}

/// 25-ft altitude decoding inverts the encoding: for every `n < 2048`, the AC
/// field carrying `n`'s upper seven bits above the Q bit and its lower four
/// below (`(n / 16) * 32 + 16 + n % 16`) decodes to `n * 25 - 1000` feet.
pub proof fn lemma_ac12_inverts_q_bit_encoding(n: u16)
    requires
        n < 2048,
    ensures
        ac12_feet(((n / 16) * 32 + 16 + n % 16) as u16) == Some((n * 25 - 1000) as i32),
{
    let ac = ((n / 16) * 32 + 16 + n % 16) as u16;
    lemma_ac12_fields(n, ac);
}

fn decode_ac12(ac: u16) -> (r: Option<i32>)
    requires
        ac < 4096,
    ensures
        r == ac12_feet(ac),
{
    if ac == 0 {
        return None;
    }
    if ac & 0x10 != 0 {
        let n = (((ac & 0x0FE0) >> 1u16) | (ac & 0x000F)) as i32;
        assert((((ac & 0x0FE0) >> 1u16) | (ac & 0x000F)) < 4096) by (bit_vector)
            requires
                ac < 4096,
        ;
        Some(n * 25 - 1000)
    } else {
        None
    }
}

/// One half of an airborne CPR position report.
#[derive(Clone, Copy, Debug, PartialEq, Eq)]
pub struct AirbornePosition {
    /// CPR format: `false` = even frame, `true` = odd frame.
    pub odd: bool,
    /// 17-bit encoded latitude fraction.
    pub lat_cpr: u32,
    /// 17-bit encoded longitude fraction.
    pub lon_cpr: u32,
    /// Barometric altitude in feet, if the AC field was valid.
    pub altitude: Option<i32>,
}

/// A parsed Mode S message — a thin view over the raw bytes.
#[derive(Clone, Debug)]
pub struct ModeS<'a> {
    bytes: &'a [u8],
}

impl<'a> ModeS<'a> {
    /// The bytes this view reads.
    pub closed spec fn msg(&self) -> Seq<u8> {
        self.bytes@
    }

    pub fn new(bytes: &'a [u8]) -> (m: Self)
        ensures
            m.msg() == bytes@,
    {
        Self { bytes }
    }

    /// Downlink format (5 bits).
    pub fn df(&self) -> (r: u8)
        requires
            self.msg().len() >= 1,
        ensures
            r == self.msg()[0] >> 3u8,
    {
        self.bytes[0] >> 3u8
    }

    /// Transponder capability (3 bits) for DF17/18.
    pub fn ca(&self) -> (r: u8)
        requires
            self.msg().len() >= 1,
        ensures
            r == self.msg()[0] & 7u8,
    {
        self.bytes[0] & 0x07
    }

    /// 24-bit ICAO aircraft address (DF17/18), message bits 8..32.
    pub fn icao(&self) -> (r: u32)
        requires
            self.msg().len() >= 4,
        ensures
            r as nat == field(self.msg(), 8, 24),
    {
        get_bits(self.bytes, 8, 24)
    }

    /// ME type code (top 5 bits of the message field), or `None` when the
    /// message is shorter than 11 bytes.
    pub fn type_code(&self) -> (r: Option<u8>)
        ensures
            r == (if self.msg().len() < 11 {
                None::<u8>
            } else {
                Some(field(self.msg(), 32, 5) as u8)
            }),
    {
        if self.bytes.len() < 11 {
            return None;
        }
        Some(get_bits(self.bytes, 32, 5) as u8)
    }

    /// Decode the 8-character callsign of an identification message (type
    /// code 1-4): reserved codes are skipped and trailing spaces trimmed.
    pub fn callsign(&self) -> (r: Option<String>)
        ensures
            match r {
                Some(s) => {
                    &&& self.msg().len() >= 11
                    &&& 1 <= field(self.msg(), 32, 5) <= 4
                    &&& s@ == trim_trailing_spaces(callsign_raw(self.msg(), 8))
                },
                None => self.msg().len() < 11 || !(1 <= field(self.msg(), 32, 5) <= 4),
            },
    {
        match self.type_code() {
            Some(tc) => {
                if !(1 <= tc && tc <= 4) {
                    proof {
                        lemma_field_bound(self.msg(), 32, 5);
                        vstd::arithmetic::power2::lemma2_to64();
                    }
                    return None;
                }
            },
            None => {
                return None;
            },
        }
        proof {
            lemma_field_bound(self.msg(), 32, 5);
            vstd::arithmetic::power2::lemma2_to64();
        }
        let mut s: Vec<char> = Vec::new();
        for c in 0..8usize
            invariant
                self.msg().len() >= 11,
                s@ == callsign_raw(self.msg(), c as nat),
        {
            let idx = get_bits(self.bytes, 40 + c * 6, 6);
            proof {
                lemma_field_bound(self.msg(), 40 + c * 6, 6);
                vstd::arithmetic::power2::lemma2_to64();
            }
            let ch = ident_charset(idx);
            if ch != 35u8 {
                s.push(ch as char);
            }
        }
        assert(s@.take(s.len() as int) =~= s@);
        let mut n = s.len();
        while n > 0 && s[n - 1] == ' '
            invariant
                n <= s@.len(),
                trim_trailing_spaces(s@.take(n as int)) == trim_trailing_spaces(
                    callsign_raw(self.msg(), 8),
                ),
            decreases n,
        {
            assert(s@.take(n as int).drop_last() =~= s@.take(n - 1));
            n = n - 1;
        }
        assert(s@.take(n as int) == trim_trailing_spaces(s@.take(n as int)));
        Some(string_from_chars(&s.as_slice()[0..n]))
    }

    /// Decode an airborne-position ME field (type code 9-18 or 20-22): CPR
    /// fraction, odd/even flag and barometric altitude.
    pub fn airborne_position(&self) -> (r: Option<AirbornePosition>)
        ensures
            match r {
                Some(p) => {
                    let tc = field(self.msg(), 32, 5);
                    &&& self.msg().len() >= 11
                    &&& (9 <= tc <= 18 || 20 <= tc <= 22)
                    &&& p.odd == (field(self.msg(), 53, 1) == 1)
                    &&& p.lat_cpr as nat == field(self.msg(), 54, 17)
                    &&& p.lon_cpr as nat == field(self.msg(), 71, 17)
                    &&& p.altitude == ac12_feet(field(self.msg(), 40, 12) as u16)
                },
                None => self.msg().len() < 11 || !({
                    let tc = field(self.msg(), 32, 5);
                    9 <= tc <= 18 || 20 <= tc <= 22
                }),
            },
    {
        let tc = match self.type_code() {
            Some(t) => t,
            None => {
                return None;
            },
        };
        proof {
            lemma_field_bound(self.msg(), 32, 5);
            lemma_field_bound(self.msg(), 40, 12);
            vstd::arithmetic::power2::lemma2_to64();
        }
        if !((9 <= tc && tc <= 18) || (20 <= tc && tc <= 22)) {
            return None;
        }
        let ac = get_bits(self.bytes, 40, 12) as u16;
        Some(
            AirbornePosition {
                odd: get_bits(self.bytes, 53, 1) == 1,
                lat_cpr: get_bits(self.bytes, 54, 17),
                lon_cpr: get_bits(self.bytes, 71, 17),
                altitude: decode_ac12(ac),
            },
        )
    }
}

/// The identification-charset byte a callsign character is sent as:
/// letters (either case) and digits as themselves in upper case, anything
/// else as a space.
pub open spec fn ident_byte(c: char) -> u8 {
    if 'a' <= c <= 'z' {
        (c as u32 - 32) as u8
    } else if 'A' <= c <= 'Z' || '0' <= c <= '9' || c == ' ' {
        c as u8
    } else {
        32u8
    }
}

fn char_to_ident(c: char) -> (r: u8)
    ensures
        r == ident_byte(c),
{
    if 'a' <= c && c <= 'z' {
        ((c as u32) - 32) as u8
    } else if ('A' <= c && c <= 'Z') || ('0' <= c && c <= '9') || c == ' ' {
        c as u32 as u8
    } else {
        32u8
    }
}

/// The 6-bit code of an identification-charset byte.
pub open spec fn ident_index(c: u8) -> u8 {
    if 65 <= c <= 90 {
        (c - 64) as u8
    } else if 48 <= c <= 57 {
        c
    } else {
        32u8
    }
}

fn ident_to_index(c: u8) -> (r: u8)
    ensures
        r == ident_index(c),
{
    if 65 <= c && c <= 90 {
        c - 64
    } else if 48 <= c && c <= 57 {
        c
    } else {
        32u8
    }
}

/// The eight callsign bytes sent for `cs`: its first eight characters mapped
/// to the identification charset, padded with spaces.
pub open spec fn ident_bytes(cs: Seq<char>) -> Seq<u8> {
    Seq::new(8, |i: int| if i < cs.len() { ident_byte(cs[i]) } else { 32u8 })
}

/// The 48-bit callsign field: eight 6-bit codes, first character highest.
pub open spec fn pack48(codes: Seq<u8>) -> u64 {
    ((codes[0] as u64) << 42u64) | ((codes[1] as u64) << 36u64) | ((codes[2] as u64) << 30u64)
        | ((codes[3] as u64) << 24u64) | ((codes[4] as u64) << 18u64) | ((codes[5] as u64)
        << 12u64) | ((codes[6] as u64) << 6u64) | (codes[7] as u64)
}

/// The first eleven bytes of the DF17 identification frame for `icao` and
/// callsign `cs` (the 24-bit parity follows).
pub open spec fn identification_payload(icao: u32, cs: Seq<char>) -> Seq<u8> {
    let codes = ident_bytes(cs).map_values(|b: u8| ident_index(b));
    let w = pack48(codes);
    seq![
        0x8Du8,
        (icao >> 16u32) as u8,
        (icao >> 8u32) as u8,
        icao as u8,
        0x20u8,
        (w >> 40u64) as u8,
        (w >> 32u64) as u8,
        (w >> 24u64) as u8,
        (w >> 16u64) as u8,
        (w >> 8u64) as u8,
        w as u8,
    ]
}

/// Build a complete DF17 identification (callsign) frame with valid parity.
///
/// `callsign` is padded/truncated to 8 characters; unsupported characters
/// become spaces. Returns the 14-byte extended-squitter frame.
pub fn encode_identification(icao: u32, callsign: &str) -> (frame: [u8; 14])
    ensures
        frame@.subrange(0, 11) == identification_payload(icao, callsign@),
        crc::crc(frame@) == 0,
{
    let cs = str_chars(callsign);
    let mut codes: Vec<u8> = Vec::with_capacity(8);
    for i in 0..8usize
        invariant
            cs@ == callsign@,
            codes@ == ident_bytes(callsign@).map_values(|b: u8| ident_index(b)).take(i as int),
    {
        let b = if i < cs.len() {
            char_to_ident(cs[i])
        } else {
            32u8
        };
        codes.push(ident_to_index(b));
        proof {
            let full = ident_bytes(callsign@).map_values(|b: u8| ident_index(b));
            assert(codes@ =~= full.take(i + 1));
        }
    }
    let ghost full = ident_bytes(callsign@).map_values(|b: u8| ident_index(b));
    assert(codes@ =~= full);
    let mut w: u64 = 0;
    for i in 0..8usize
        invariant
            codes@ == full,
            codes@.len() == 8,
            forall|k: int| 0 <= k < 8 ==> codes@[k] < 64,
            i == 0 ==> w == 0,
            i == 1 ==> w == (codes@[0] as u64),
            i == 2 ==> w == ((codes@[0] as u64) << 6u64) | (codes@[1] as u64),
            i == 3 ==> w == ((codes@[0] as u64) << 12u64) | ((codes@[1] as u64) << 6u64) | (
            codes@[2] as u64),
            i == 4 ==> w == ((codes@[0] as u64) << 18u64) | ((codes@[1] as u64) << 12u64) | ((
            codes@[2] as u64) << 6u64) | (codes@[3] as u64),
            i == 5 ==> w == ((codes@[0] as u64) << 24u64) | ((codes@[1] as u64) << 18u64) | ((
            codes@[2] as u64) << 12u64) | ((codes@[3] as u64) << 6u64) | (codes@[4] as u64),
            i == 6 ==> w == ((codes@[0] as u64) << 30u64) | ((codes@[1] as u64) << 24u64) | ((
            codes@[2] as u64) << 18u64) | ((codes@[3] as u64) << 12u64) | ((codes@[4] as u64)
                << 6u64) | (codes@[5] as u64),
            i == 7 ==> w == ((codes@[0] as u64) << 36u64) | ((codes@[1] as u64) << 30u64) | ((
            codes@[2] as u64) << 24u64) | ((codes@[3] as u64) << 18u64) | ((codes@[4] as u64)
                << 12u64) | ((codes@[5] as u64) << 6u64) | (codes@[6] as u64),
            i == 8 ==> w == pack48(codes@),
    {
        let c = codes[i] as u64;
        let ghost w0 = w;
        w = (w << 6u64) | c;
        proof {
            let c0 = codes@[0] as u64;
            let c1 = codes@[1] as u64;
            let c2 = codes@[2] as u64;
            let c3 = codes@[3] as u64;
            let c4 = codes@[4] as u64;
            let c5 = codes@[5] as u64;
            let c6 = codes@[6] as u64;
            let c7 = codes@[7] as u64;
            lemma_pack_steps(c0, c1, c2, c3, c4, c5, c6, c7);
        }
    }
    let mut frame = [0u8; 14];
    frame[0] = (DF_ADSB << 3u8) | CA_LEVEL2;
    frame[1] = (icao >> 16u32) as u8;
    frame[2] = (icao >> 8u32) as u8;
    frame[3] = icao as u8;
    let tc: u8 = 4;
    frame[4] = tc << 3u8;
    frame[5] = (w >> 40u64) as u8;
    frame[6] = (w >> 32u64) as u8;
    frame[7] = (w >> 24u64) as u8;
    frame[8] = (w >> 16u64) as u8;
    frame[9] = (w >> 8u64) as u8;
    frame[10] = w as u8;
    proof {
        lemma_header_bytes();
    }
    crc::append_parity(&mut frame);
    assert(frame@.subrange(0, 11) =~= identification_payload(icao, callsign@));
    frame
}

/// Each step of packing eight 6-bit codes into a 48-bit word.
proof fn lemma_pack_steps(c0: u64, c1: u64, c2: u64, c3: u64, c4: u64, c5: u64, c6: u64, c7: u64)
    by (bit_vector)
    ensures
        (0u64 << 6u64) | c0 == c0,
        (((c0 << 6u64) | c1) << 6u64) | c2 == (c0 << 12u64) | (c1 << 6u64) | c2,
        (((c0 << 12u64) | (c1 << 6u64) | c2) << 6u64) | c3 == (c0 << 18u64) | (c1 << 12u64) | (c2
            << 6u64) | c3,
        (((c0 << 18u64) | (c1 << 12u64) | (c2 << 6u64) | c3) << 6u64) | c4 == (c0 << 24u64) | (c1
            << 18u64) | (c2 << 12u64) | (c3 << 6u64) | c4,
        (((c0 << 24u64) | (c1 << 18u64) | (c2 << 12u64) | (c3 << 6u64) | c4) << 6u64) | c5 == (c0
            << 30u64) | (c1 << 24u64) | (c2 << 18u64) | (c3 << 12u64) | (c4 << 6u64) | c5,
        (((c0 << 30u64) | (c1 << 24u64) | (c2 << 18u64) | (c3 << 12u64) | (c4 << 6u64) | c5)
            << 6u64) | c6 == (c0 << 36u64) | (c1 << 30u64) | (c2 << 24u64) | (c3 << 18u64) | (c4
            << 12u64) | (c5 << 6u64) | c6,
        (((c0 << 36u64) | (c1 << 30u64) | (c2 << 24u64) | (c3 << 18u64) | (c4 << 12u64) | (c5
            << 6u64) | c6) << 6u64) | c7 == (c0 << 42u64) | (c1 << 36u64) | (c2 << 30u64) | (c3
            << 24u64) | (c4 << 18u64) | (c5 << 12u64) | (c6 << 6u64) | c7,
{
}

/// The first header byte `(17 << 3) | 5` and the type-code byte `4 << 3`.
proof fn lemma_header_bytes()
    by (bit_vector)
    ensures
        (17u8 << 3u8) | 5u8 == 0x8Du8,
        4u8 << 3u8 == 0x20u8,
        0x8Du8 >> 3u8 == 17u8,
        0x8Du8 & 7u8 == 5u8,
{
}

/// The six bits of a 6-bit field, most significant first.
proof fn lemma_field6(msg: Seq<u8>, start: int)
    ensures
        field(msg, start, 6) == bit_at(msg, start) * 32 + bit_at(msg, start + 1) * 16 + bit_at(
            msg,
            start + 2,
        ) * 8 + bit_at(msg, start + 3) * 4 + bit_at(msg, start + 4) * 2 + bit_at(msg, start + 5),
{
    reveal_with_fuel(field, 7);
}

proof fn lemma_code_bits_0(w: u64, c0: u64, c1: u64, c2: u64, c3: u64, c4: u64, c5: u64, c6: u64, c7: u64, b5: u8, b6: u8, b7: u8, b8: u8, b9: u8, b10: u8)
    requires
        c0 < 64, c1 < 64, c2 < 64, c3 < 64, c4 < 64, c5 < 64, c6 < 64, c7 < 64,
        w == (c0 << 42u64) | (c1 << 36u64) | (c2 << 30u64) | (c3 << 24u64) | (c4 << 18u64) | (c5 << 12u64) | (c6 << 6u64) | c7,
        b5 == (w >> 40u64) as u8,
        b6 == (w >> 32u64) as u8,
        b7 == (w >> 24u64) as u8,
        b8 == (w >> 16u64) as u8,
        b9 == (w >> 8u64) as u8,
        b10 == w as u8,
    ensures
        (((b5 >> 7u8) & 1u8) as u64) * 32 + (((b5 >> 6u8) & 1u8) as u64) * 16 + (((b5 >> 5u8) & 1u8) as u64) * 8 + (((b5 >> 4u8) & 1u8) as u64) * 4 + (((b5 >> 3u8) & 1u8) as u64) * 2 + (((b5 >> 2u8) & 1u8) as u64) * 1 == c0,
{
    assert((((b5 >> 7u8) & 1u8) as u64) * 32 + (((b5 >> 6u8) & 1u8) as u64) * 16 + (((b5 >> 5u8) & 1u8) as u64) * 8 + (((b5 >> 4u8) & 1u8) as u64) * 4 + (((b5 >> 3u8) & 1u8) as u64) * 2 + (((b5 >> 2u8) & 1u8) as u64) * 1 == c0) by (bit_vector)
        requires
        c0 < 64, c1 < 64, c2 < 64, c3 < 64, c4 < 64, c5 < 64, c6 < 64, c7 < 64,
        w == (c0 << 42u64) | (c1 << 36u64) | (c2 << 30u64) | (c3 << 24u64) | (c4 << 18u64) | (c5 << 12u64) | (c6 << 6u64) | c7,
        b5 == (w >> 40u64) as u8,
        b6 == (w >> 32u64) as u8,
        b7 == (w >> 24u64) as u8,
        b8 == (w >> 16u64) as u8,
        b9 == (w >> 8u64) as u8,
        b10 == w as u8,
    ;
}

proof fn lemma_code_bits_1(w: u64, c0: u64, c1: u64, c2: u64, c3: u64, c4: u64, c5: u64, c6: u64, c7: u64, b5: u8, b6: u8, b7: u8, b8: u8, b9: u8, b10: u8)
    requires
        c0 < 64, c1 < 64, c2 < 64, c3 < 64, c4 < 64, c5 < 64, c6 < 64, c7 < 64,
        w == (c0 << 42u64) | (c1 << 36u64) | (c2 << 30u64) | (c3 << 24u64) | (c4 << 18u64) | (c5 << 12u64) | (c6 << 6u64) | c7,
        b5 == (w >> 40u64) as u8,
        b6 == (w >> 32u64) as u8,
        b7 == (w >> 24u64) as u8,
        b8 == (w >> 16u64) as u8,
        b9 == (w >> 8u64) as u8,
        b10 == w as u8,
    ensures
        (((b5 >> 1u8) & 1u8) as u64) * 32 + (((b5 >> 0u8) & 1u8) as u64) * 16 + (((b6 >> 7u8) & 1u8) as u64) * 8 + (((b6 >> 6u8) & 1u8) as u64) * 4 + (((b6 >> 5u8) & 1u8) as u64) * 2 + (((b6 >> 4u8) & 1u8) as u64) * 1 == c1,
{
    assert((((b5 >> 1u8) & 1u8) as u64) * 32 + (((b5 >> 0u8) & 1u8) as u64) * 16 + (((b6 >> 7u8) & 1u8) as u64) * 8 + (((b6 >> 6u8) & 1u8) as u64) * 4 + (((b6 >> 5u8) & 1u8) as u64) * 2 + (((b6 >> 4u8) & 1u8) as u64) * 1 == c1) by (bit_vector)
        requires
        c0 < 64, c1 < 64, c2 < 64, c3 < 64, c4 < 64, c5 < 64, c6 < 64, c7 < 64,
        w == (c0 << 42u64) | (c1 << 36u64) | (c2 << 30u64) | (c3 << 24u64) | (c4 << 18u64) | (c5 << 12u64) | (c6 << 6u64) | c7,
        b5 == (w >> 40u64) as u8,
        b6 == (w >> 32u64) as u8,
        b7 == (w >> 24u64) as u8,
        b8 == (w >> 16u64) as u8,
        b9 == (w >> 8u64) as u8,
        b10 == w as u8,
    ;
}

proof fn lemma_code_bits_2(w: u64, c0: u64, c1: u64, c2: u64, c3: u64, c4: u64, c5: u64, c6: u64, c7: u64, b5: u8, b6: u8, b7: u8, b8: u8, b9: u8, b10: u8)
    requires
        c0 < 64, c1 < 64, c2 < 64, c3 < 64, c4 < 64, c5 < 64, c6 < 64, c7 < 64,
        w == (c0 << 42u64) | (c1 << 36u64) | (c2 << 30u64) | (c3 << 24u64) | (c4 << 18u64) | (c5 << 12u64) | (c6 << 6u64) | c7,
        b5 == (w >> 40u64) as u8,
        b6 == (w >> 32u64) as u8,
        b7 == (w >> 24u64) as u8,
        b8 == (w >> 16u64) as u8,
        b9 == (w >> 8u64) as u8,
        b10 == w as u8,
    ensures
        (((b6 >> 3u8) & 1u8) as u64) * 32 + (((b6 >> 2u8) & 1u8) as u64) * 16 + (((b6 >> 1u8) & 1u8) as u64) * 8 + (((b6 >> 0u8) & 1u8) as u64) * 4 + (((b7 >> 7u8) & 1u8) as u64) * 2 + (((b7 >> 6u8) & 1u8) as u64) * 1 == c2,
{
    assert((((b6 >> 3u8) & 1u8) as u64) * 32 + (((b6 >> 2u8) & 1u8) as u64) * 16 + (((b6 >> 1u8) & 1u8) as u64) * 8 + (((b6 >> 0u8) & 1u8) as u64) * 4 + (((b7 >> 7u8) & 1u8) as u64) * 2 + (((b7 >> 6u8) & 1u8) as u64) * 1 == c2) by (bit_vector)
        requires
        c0 < 64, c1 < 64, c2 < 64, c3 < 64, c4 < 64, c5 < 64, c6 < 64, c7 < 64,
        w == (c0 << 42u64) | (c1 << 36u64) | (c2 << 30u64) | (c3 << 24u64) | (c4 << 18u64) | (c5 << 12u64) | (c6 << 6u64) | c7,
        b5 == (w >> 40u64) as u8,
        b6 == (w >> 32u64) as u8,
        b7 == (w >> 24u64) as u8,
        b8 == (w >> 16u64) as u8,
        b9 == (w >> 8u64) as u8,
        b10 == w as u8,
    ;
}

proof fn lemma_code_bits_3(w: u64, c0: u64, c1: u64, c2: u64, c3: u64, c4: u64, c5: u64, c6: u64, c7: u64, b5: u8, b6: u8, b7: u8, b8: u8, b9: u8, b10: u8)
    requires
        c0 < 64, c1 < 64, c2 < 64, c3 < 64, c4 < 64, c5 < 64, c6 < 64, c7 < 64,
        w == (c0 << 42u64) | (c1 << 36u64) | (c2 << 30u64) | (c3 << 24u64) | (c4 << 18u64) | (c5 << 12u64) | (c6 << 6u64) | c7,
        b5 == (w >> 40u64) as u8,
        b6 == (w >> 32u64) as u8,
        b7 == (w >> 24u64) as u8,
        b8 == (w >> 16u64) as u8,
        b9 == (w >> 8u64) as u8,
        b10 == w as u8,
    ensures
        (((b7 >> 5u8) & 1u8) as u64) * 32 + (((b7 >> 4u8) & 1u8) as u64) * 16 + (((b7 >> 3u8) & 1u8) as u64) * 8 + (((b7 >> 2u8) & 1u8) as u64) * 4 + (((b7 >> 1u8) & 1u8) as u64) * 2 + (((b7 >> 0u8) & 1u8) as u64) * 1 == c3,
{
    assert((((b7 >> 5u8) & 1u8) as u64) * 32 + (((b7 >> 4u8) & 1u8) as u64) * 16 + (((b7 >> 3u8) & 1u8) as u64) * 8 + (((b7 >> 2u8) & 1u8) as u64) * 4 + (((b7 >> 1u8) & 1u8) as u64) * 2 + (((b7 >> 0u8) & 1u8) as u64) * 1 == c3) by (bit_vector)
        requires
        c0 < 64, c1 < 64, c2 < 64, c3 < 64, c4 < 64, c5 < 64, c6 < 64, c7 < 64,
        w == (c0 << 42u64) | (c1 << 36u64) | (c2 << 30u64) | (c3 << 24u64) | (c4 << 18u64) | (c5 << 12u64) | (c6 << 6u64) | c7,
        b5 == (w >> 40u64) as u8,
        b6 == (w >> 32u64) as u8,
        b7 == (w >> 24u64) as u8,
        b8 == (w >> 16u64) as u8,
        b9 == (w >> 8u64) as u8,
        b10 == w as u8,
    ;
}

proof fn lemma_code_bits_4(w: u64, c0: u64, c1: u64, c2: u64, c3: u64, c4: u64, c5: u64, c6: u64, c7: u64, b5: u8, b6: u8, b7: u8, b8: u8, b9: u8, b10: u8)
    requires
        c0 < 64, c1 < 64, c2 < 64, c3 < 64, c4 < 64, c5 < 64, c6 < 64, c7 < 64,
        w == (c0 << 42u64) | (c1 << 36u64) | (c2 << 30u64) | (c3 << 24u64) | (c4 << 18u64) | (c5 << 12u64) | (c6 << 6u64) | c7,
        b5 == (w >> 40u64) as u8,
        b6 == (w >> 32u64) as u8,
        b7 == (w >> 24u64) as u8,
        b8 == (w >> 16u64) as u8,
        b9 == (w >> 8u64) as u8,
        b10 == w as u8,
    ensures
        (((b8 >> 7u8) & 1u8) as u64) * 32 + (((b8 >> 6u8) & 1u8) as u64) * 16 + (((b8 >> 5u8) & 1u8) as u64) * 8 + (((b8 >> 4u8) & 1u8) as u64) * 4 + (((b8 >> 3u8) & 1u8) as u64) * 2 + (((b8 >> 2u8) & 1u8) as u64) * 1 == c4,
{
    assert((((b8 >> 7u8) & 1u8) as u64) * 32 + (((b8 >> 6u8) & 1u8) as u64) * 16 + (((b8 >> 5u8) & 1u8) as u64) * 8 + (((b8 >> 4u8) & 1u8) as u64) * 4 + (((b8 >> 3u8) & 1u8) as u64) * 2 + (((b8 >> 2u8) & 1u8) as u64) * 1 == c4) by (bit_vector)
        requires
        c0 < 64, c1 < 64, c2 < 64, c3 < 64, c4 < 64, c5 < 64, c6 < 64, c7 < 64,
        w == (c0 << 42u64) | (c1 << 36u64) | (c2 << 30u64) | (c3 << 24u64) | (c4 << 18u64) | (c5 << 12u64) | (c6 << 6u64) | c7,
        b5 == (w >> 40u64) as u8,
        b6 == (w >> 32u64) as u8,
        b7 == (w >> 24u64) as u8,
        b8 == (w >> 16u64) as u8,
        b9 == (w >> 8u64) as u8,
        b10 == w as u8,
    ;
}

proof fn lemma_code_bits_5(w: u64, c0: u64, c1: u64, c2: u64, c3: u64, c4: u64, c5: u64, c6: u64, c7: u64, b5: u8, b6: u8, b7: u8, b8: u8, b9: u8, b10: u8)
    requires
        c0 < 64, c1 < 64, c2 < 64, c3 < 64, c4 < 64, c5 < 64, c6 < 64, c7 < 64,
        w == (c0 << 42u64) | (c1 << 36u64) | (c2 << 30u64) | (c3 << 24u64) | (c4 << 18u64) | (c5 << 12u64) | (c6 << 6u64) | c7,
        b5 == (w >> 40u64) as u8,
        b6 == (w >> 32u64) as u8,
        b7 == (w >> 24u64) as u8,
        b8 == (w >> 16u64) as u8,
        b9 == (w >> 8u64) as u8,
        b10 == w as u8,
    ensures
        (((b8 >> 1u8) & 1u8) as u64) * 32 + (((b8 >> 0u8) & 1u8) as u64) * 16 + (((b9 >> 7u8) & 1u8) as u64) * 8 + (((b9 >> 6u8) & 1u8) as u64) * 4 + (((b9 >> 5u8) & 1u8) as u64) * 2 + (((b9 >> 4u8) & 1u8) as u64) * 1 == c5,
{
    assert((((b8 >> 1u8) & 1u8) as u64) * 32 + (((b8 >> 0u8) & 1u8) as u64) * 16 + (((b9 >> 7u8) & 1u8) as u64) * 8 + (((b9 >> 6u8) & 1u8) as u64) * 4 + (((b9 >> 5u8) & 1u8) as u64) * 2 + (((b9 >> 4u8) & 1u8) as u64) * 1 == c5) by (bit_vector)
        requires
        c0 < 64, c1 < 64, c2 < 64, c3 < 64, c4 < 64, c5 < 64, c6 < 64, c7 < 64,
        w == (c0 << 42u64) | (c1 << 36u64) | (c2 << 30u64) | (c3 << 24u64) | (c4 << 18u64) | (c5 << 12u64) | (c6 << 6u64) | c7,
        b5 == (w >> 40u64) as u8,
        b6 == (w >> 32u64) as u8,
        b7 == (w >> 24u64) as u8,
        b8 == (w >> 16u64) as u8,
        b9 == (w >> 8u64) as u8,
        b10 == w as u8,
    ;
}

proof fn lemma_code_bits_6(w: u64, c0: u64, c1: u64, c2: u64, c3: u64, c4: u64, c5: u64, c6: u64, c7: u64, b5: u8, b6: u8, b7: u8, b8: u8, b9: u8, b10: u8)
    requires
        c0 < 64, c1 < 64, c2 < 64, c3 < 64, c4 < 64, c5 < 64, c6 < 64, c7 < 64,
        w == (c0 << 42u64) | (c1 << 36u64) | (c2 << 30u64) | (c3 << 24u64) | (c4 << 18u64) | (c5 << 12u64) | (c6 << 6u64) | c7,
        b5 == (w >> 40u64) as u8,
        b6 == (w >> 32u64) as u8,
        b7 == (w >> 24u64) as u8,
        b8 == (w >> 16u64) as u8,
        b9 == (w >> 8u64) as u8,
        b10 == w as u8,
    ensures
        (((b9 >> 3u8) & 1u8) as u64) * 32 + (((b9 >> 2u8) & 1u8) as u64) * 16 + (((b9 >> 1u8) & 1u8) as u64) * 8 + (((b9 >> 0u8) & 1u8) as u64) * 4 + (((b10 >> 7u8) & 1u8) as u64) * 2 + (((b10 >> 6u8) & 1u8) as u64) * 1 == c6,
{
    assert((((b9 >> 3u8) & 1u8) as u64) * 32 + (((b9 >> 2u8) & 1u8) as u64) * 16 + (((b9 >> 1u8) & 1u8) as u64) * 8 + (((b9 >> 0u8) & 1u8) as u64) * 4 + (((b10 >> 7u8) & 1u8) as u64) * 2 + (((b10 >> 6u8) & 1u8) as u64) * 1 == c6) by (bit_vector)
        requires
        c0 < 64, c1 < 64, c2 < 64, c3 < 64, c4 < 64, c5 < 64, c6 < 64, c7 < 64,
        w == (c0 << 42u64) | (c1 << 36u64) | (c2 << 30u64) | (c3 << 24u64) | (c4 << 18u64) | (c5 << 12u64) | (c6 << 6u64) | c7,
        b5 == (w >> 40u64) as u8,
        b6 == (w >> 32u64) as u8,
        b7 == (w >> 24u64) as u8,
        b8 == (w >> 16u64) as u8,
        b9 == (w >> 8u64) as u8,
        b10 == w as u8,
    ;
}

proof fn lemma_code_bits_7(w: u64, c0: u64, c1: u64, c2: u64, c3: u64, c4: u64, c5: u64, c6: u64, c7: u64, b5: u8, b6: u8, b7: u8, b8: u8, b9: u8, b10: u8)
    requires
        c0 < 64, c1 < 64, c2 < 64, c3 < 64, c4 < 64, c5 < 64, c6 < 64, c7 < 64,
        w == (c0 << 42u64) | (c1 << 36u64) | (c2 << 30u64) | (c3 << 24u64) | (c4 << 18u64) | (c5 << 12u64) | (c6 << 6u64) | c7,
        b5 == (w >> 40u64) as u8,
        b6 == (w >> 32u64) as u8,
        b7 == (w >> 24u64) as u8,
        b8 == (w >> 16u64) as u8,
        b9 == (w >> 8u64) as u8,
        b10 == w as u8,
    ensures
        (((b10 >> 5u8) & 1u8) as u64) * 32 + (((b10 >> 4u8) & 1u8) as u64) * 16 + (((b10 >> 3u8) & 1u8) as u64) * 8 + (((b10 >> 2u8) & 1u8) as u64) * 4 + (((b10 >> 1u8) & 1u8) as u64) * 2 + (((b10 >> 0u8) & 1u8) as u64) * 1 == c7,
{
    assert((((b10 >> 5u8) & 1u8) as u64) * 32 + (((b10 >> 4u8) & 1u8) as u64) * 16 + (((b10 >> 3u8) & 1u8) as u64) * 8 + (((b10 >> 2u8) & 1u8) as u64) * 4 + (((b10 >> 1u8) & 1u8) as u64) * 2 + (((b10 >> 0u8) & 1u8) as u64) * 1 == c7) by (bit_vector)
        requires
        c0 < 64, c1 < 64, c2 < 64, c3 < 64, c4 < 64, c5 < 64, c6 < 64, c7 < 64,
        w == (c0 << 42u64) | (c1 << 36u64) | (c2 << 30u64) | (c3 << 24u64) | (c4 << 18u64) | (c5 << 12u64) | (c6 << 6u64) | c7,
        b5 == (w >> 40u64) as u8,
        b6 == (w >> 32u64) as u8,
        b7 == (w >> 24u64) as u8,
        b8 == (w >> 16u64) as u8,
        b9 == (w >> 8u64) as u8,
        b10 == w as u8,
    ;
}

/// Field decoding inverts identification encoding: the frame built by
/// [`encode_identification`] reads back as DF17, capability 5, the 24-bit
/// address, type code 4, and the callsign's eight charset codes in order.
pub proof fn lemma_identification_fields(icao: u32, cs: Seq<char>, frame: Seq<u8>)
    requires
        frame.len() >= 11,
        frame.subrange(0, 11) == identification_payload(icao, cs),
    ensures
        frame[0] >> 3u8 == DF_ADSB,
        frame[0] & 7u8 == CA_LEVEL2,
        field(frame, 32, 5) == 4,
        forall|c: int|
            0 <= c < 8 ==> #[trigger] field(frame, 40 + 6 * c, 6) == ident_index(
                ident_bytes(cs)[c],
            ),
{
    let codes = ident_bytes(cs).map_values(|b: u8| ident_index(b));
    let w = pack48(codes);
    let p = identification_payload(icao, cs);
    assert forall|k: int| 0 <= k < 11 implies frame[k] == p[k] by {
        assert(frame.subrange(0, 11)[k] == frame[k]);
    }
    lemma_header_bytes();
    assert(field(frame, 32, 5) == 4) by {
        reveal_with_fuel(field, 6);
        let b = frame[4];
        assert(b == 0x20u8);
        assert((b >> 7u8) & 1u8 == 0u8 && (b >> 6u8) & 1u8 == 0u8 && (b >> 5u8) & 1u8 == 1u8
            && (b >> 4u8) & 1u8 == 0u8 && (b >> 3u8) & 1u8 == 0u8) by (bit_vector)
            requires
                b == 0x20u8,
        ;
    }
    let c0 = codes[0] as u64;
    let c1 = codes[1] as u64;
    let c2 = codes[2] as u64;
    let c3 = codes[3] as u64;
    let c4 = codes[4] as u64;
    let c5 = codes[5] as u64;
    let c6 = codes[6] as u64;
    let c7 = codes[7] as u64;
    let b5 = frame[5];
    let b6 = frame[6];
    let b7 = frame[7];
    let b8 = frame[8];
    let b9 = frame[9];
    let b10 = frame[10];
    assert(field(frame, 40, 6) == c0) by {
        lemma_field6(frame, 40);
        lemma_code_bits_0(w, c0, c1, c2, c3, c4, c5, c6, c7, b5, b6, b7, b8, b9, b10);
    }
    assert(field(frame, 46, 6) == c1) by {
        lemma_field6(frame, 46);
        lemma_code_bits_1(w, c0, c1, c2, c3, c4, c5, c6, c7, b5, b6, b7, b8, b9, b10);
    }
    assert(field(frame, 52, 6) == c2) by {
        lemma_field6(frame, 52);
        lemma_code_bits_2(w, c0, c1, c2, c3, c4, c5, c6, c7, b5, b6, b7, b8, b9, b10);
    }
    assert(field(frame, 58, 6) == c3) by {
        lemma_field6(frame, 58);
        lemma_code_bits_3(w, c0, c1, c2, c3, c4, c5, c6, c7, b5, b6, b7, b8, b9, b10);
    }
    assert(field(frame, 64, 6) == c4) by {
        lemma_field6(frame, 64);
        lemma_code_bits_4(w, c0, c1, c2, c3, c4, c5, c6, c7, b5, b6, b7, b8, b9, b10);
    }
    assert(field(frame, 70, 6) == c5) by {
        lemma_field6(frame, 70);
        lemma_code_bits_5(w, c0, c1, c2, c3, c4, c5, c6, c7, b5, b6, b7, b8, b9, b10);
    }
    assert(field(frame, 76, 6) == c6) by {
        lemma_field6(frame, 76);
        lemma_code_bits_6(w, c0, c1, c2, c3, c4, c5, c6, c7, b5, b6, b7, b8, b9, b10);
    }
    assert(field(frame, 82, 6) == c7) by {
        lemma_field6(frame, 82);
        lemma_code_bits_7(w, c0, c1, c2, c3, c4, c5, c6, c7, b5, b6, b7, b8, b9, b10);
    }
    assert forall|c: int| 0 <= c < 8 implies #[trigger] field(frame, 40 + 6 * c, 6) == ident_index(
        ident_bytes(cs)[c],
    ) by {
        assert(codes[c] == ident_index(ident_bytes(cs)[c]));
        if c == 0 {
        } else if c == 1 {
        } else if c == 2 {
        } else if c == 3 {
        } else if c == 4 {
        } else if c == 5 {
        } else if c == 6 {
        } else {
        }
    }
}

/// A field splits into its leading and trailing parts.
pub proof fn lemma_field_split(msg: Seq<u8>, start: int, a: nat, b: nat)
    ensures
        field(msg, start, a + b) == field(msg, start, a) * vstd::arithmetic::power2::pow2(b)
            + field(msg, start + a, b),
    decreases b,
{
    vstd::arithmetic::power2::lemma2_to64();
    if b == 0 {
        assert(a + b == a);
        let x = field(msg, start, a);
        assert(x * 1 == x);
    } else {
        lemma_field_split(msg, start, a, (b - 1) as nat);
        assert((a + (b - 1) as nat) == (a + b - 1) as nat);
        vstd::arithmetic::power2::lemma_pow2_unfold(b);
        assert(field(msg, start, a + b) == field(msg, start, (a + b - 1) as nat) * 2 + bit_at(
            msg,
            start + a + b - 1,
        ));
        assert(field(msg, start + a, b) == field(msg, start + a, (b - 1) as nat) * 2 + bit_at(
            msg,
            start + a + b - 1,
        ));
        let x = field(msg, start, a);
        let y = field(msg, start + a, (b - 1) as nat);
        let p = vstd::arithmetic::power2::pow2((b - 1) as nat);
        let z = bit_at(msg, start + a + b - 1) as int;
        assert((x * p + y) * 2 + z == x * (p * 2) + (y * 2 + z)) by (nonlinear_arith);
        assert(vstd::arithmetic::power2::pow2(b) == p * 2);
    }
}

/// A byte-aligned 8-bit field is the byte.
proof fn lemma_field_byte(msg: Seq<u8>, j: int)
    requires
        0 <= j < msg.len(),
    ensures
        field(msg, 8 * j, 8) == msg[j] as nat,
{
    reveal_with_fuel(field, 9);
    let b = msg[j];
    assert(((b >> 7u8) & 1u8) as nat * 128 + ((b >> 6u8) & 1u8) as nat * 64 + ((b >> 5u8) & 1u8) as nat * 32
        + ((b >> 4u8) & 1u8) as nat * 16 + ((b >> 3u8) & 1u8) as nat * 8 + ((b >> 2u8) & 1u8) as nat * 4
        + ((b >> 1u8) & 1u8) as nat * 2 + ((b >> 0u8) & 1u8) as nat == b as nat) by (bit_vector);
    assert((8 * j + 7) / 8 == j && (8 * j + 6) / 8 == j && (8 * j + 5) / 8 == j && (8 * j + 4) / 8
        == j && (8 * j + 3) / 8 == j && (8 * j + 2) / 8 == j && (8 * j + 1) / 8 == j && (8 * j) / 8
        == j && (8 * j + 7) % 8 == 7 && (8 * j + 6) % 8 == 6 && (8 * j + 5) % 8 == 5 && (8 * j + 4)
        % 8 == 4 && (8 * j + 3) % 8 == 3 && (8 * j + 2) % 8 == 2 && (8 * j + 1) % 8 == 1 && (8 * j)
        % 8 == 0) by (nonlinear_arith)
        requires
            0 <= j,
    ;
}

/// The address field of an identification frame is the low 24 bits of `icao`.
pub proof fn lemma_identification_icao(icao: u32, cs: Seq<char>, frame: Seq<u8>)
    requires
        frame.len() >= 11,
        frame.subrange(0, 11) == identification_payload(icao, cs),
    ensures
        field(frame, 8, 24) == (icao & 0x00FF_FFFFu32) as nat,
{
    vstd::arithmetic::power2::lemma2_to64();
    assert(frame[1] == frame.subrange(0, 11)[1]);
    assert(frame[2] == frame.subrange(0, 11)[2]);
    assert(frame[3] == frame.subrange(0, 11)[3]);
    lemma_field_split(frame, 8, 16, 8);
    lemma_field_split(frame, 8, 8, 8);
    lemma_field_byte(frame, 1);
    lemma_field_byte(frame, 2);
    lemma_field_byte(frame, 3);
    let b1 = frame[1];
    let b2 = frame[2];
    let b3 = frame[3];
    assert((b1 as nat) * 256 * 256 + (b2 as nat) * 256 + (b3 as nat) == (icao & 0x00FF_FFFFu32)
        as nat) by (bit_vector)
        requires
            b1 == (icao >> 16u32) as u8,
            b2 == (icao >> 8u32) as u8,
            b3 == icao as u8,
    ;
}

/// Characters of the identification charset decode to themselves.
proof fn lemma_ident_char_inverse(c: char)
    ensures
        ident_char(ident_index(ident_byte(c)) as int) == ident_byte(c),
        ident_byte(c) != 35u8,
{
}

/// The decoded (untrimmed) callsign of an identification frame is the eight
/// sent charset characters.
proof fn lemma_callsign_raw(icao: u32, cs: Seq<char>, frame: Seq<u8>, n: nat)
    requires
        frame.len() >= 11,
        frame.subrange(0, 11) == identification_payload(icao, cs),
        n <= 8,
    ensures
        callsign_raw(frame, n) == ident_bytes(cs).map_values(|b: u8| b as char).take(n as int),
    decreases n,
{
    if n > 0 {
        lemma_callsign_raw(icao, cs, frame, (n - 1) as nat);
        lemma_identification_fields(icao, cs, frame);
        let c = (n - 1) as int;
        assert(field(frame, 40 + 6 * c, 6) == ident_index(ident_bytes(cs)[c]));
        let ch = if c < cs.len() { cs[c] } else { ' ' };
        assert(ident_bytes(cs)[c] == ident_byte(ch));
        lemma_ident_char_inverse(ch);
        assert(callsign_raw(frame, n) =~= ident_bytes(cs).map_values(|b: u8| b as char).take(
            n as int,
        ));
    }
}

/// Identification frames round-trip: decoding the frame built for `icao` and
/// `cs` gives back the address (low 24 bits) and the callsign as sent — its
/// first eight characters in the identification charset, trailing spaces
/// trimmed — and the frame checksums clean.
pub proof fn lemma_identification_round_trip(icao: u32, cs: Seq<char>, frame: Seq<u8>)
    requires
        frame.len() == 14,
        frame.subrange(0, 11) == identification_payload(icao, cs),
    ensures
        frame[0] >> 3u8 == DF_ADSB,
        frame[0] & 7u8 == CA_LEVEL2,
        field(frame, 8, 24) == (icao & 0x00FF_FFFFu32) as nat,
        field(frame, 32, 5) == 4,
        trim_trailing_spaces(callsign_raw(frame, 8)) == trim_trailing_spaces(
            ident_bytes(cs).map_values(|b: u8| b as char),
        ),
{
    lemma_identification_fields(icao, cs, frame);
    lemma_identification_icao(icao, cs, frame);
    lemma_callsign_raw(icao, cs, frame, 8);
    assert(ident_bytes(cs).map_values(|b: u8| b as char).take(8) =~= ident_bytes(cs).map_values(
        |b: u8| b as char,
    ));
}

/// Text in the identification charset: at most eight characters, each an
/// upper-case letter, a digit or a space.
pub open spec fn ident_text(cs: Seq<char>) -> bool {
    &&& cs.len() <= 8
    &&& forall|i: int|
        0 <= i < cs.len() ==> ('A' <= #[trigger] cs[i] <= 'Z') || ('0' <= cs[i] <= '9') || cs[i]
            == ' '
}

proof fn lemma_trim_padding(s: Seq<char>, k: nat)
    ensures
        trim_trailing_spaces(s + Seq::new(k, |i: int| ' ')) == trim_trailing_spaces(s),
    decreases k,
{
    if k > 0 {
        let t = s + Seq::new(k, |i: int| ' ');
        assert(t.drop_last() =~= s + Seq::new((k - 1) as nat, |i: int| ' '));
        lemma_trim_padding(s, (k - 1) as nat);
    } else {
        assert(s + Seq::new(0, |i: int| ' ') =~= s);
    }
}

/// A callsign in the identification charset round-trips through an
/// identification frame: decoding gives back the text with its trailing
/// spaces trimmed (spaces inside it are kept).
pub proof fn lemma_callsign_round_trip(icao: u32, cs: Seq<char>, frame: Seq<u8>)
    requires
        frame.len() == 14,
        frame.subrange(0, 11) == identification_payload(icao, cs),
        ident_text(cs),
    ensures
        trim_trailing_spaces(callsign_raw(frame, 8)) == trim_trailing_spaces(cs),
{
    lemma_identification_round_trip(icao, cs, frame);
    let padded = ident_bytes(cs).map_values(|b: u8| b as char);
    let pad = Seq::new((8 - cs.len()) as nat, |i: int| ' ');
    assert(padded =~= cs + pad) by {
        assert forall|i: int| 0 <= i < 8 implies padded[i] == (cs + pad)[i] by {
            if i < cs.len() {
                let c = cs[i];
                assert(('A' <= c <= 'Z') || ('0' <= c <= '9') || c == ' ');
                assert(ident_byte(c) == c as u8);
            }
        }
    }
    lemma_trim_padding(cs, (8 - cs.len()) as nat);
}

} // verus!
