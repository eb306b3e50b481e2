//! MFSK pictures: the `"\nSending Pic:<W>x<H>[C][p<spp>];"` header that
//! announces a picture in the text stream. `C` marks colour; the optional
//! `p<spp>` selects 4 or 2 samples per pixel (absent: 8).
use vstd::prelude::*;
use crate::text::{
    all_ascii, decimal_bytes, digit_byte, digit_run_end, digits_val, find_bytes, find_sub, latin1,
    latin1_string, lemma_ascii_encode, lemma_decimal_bytes, lemma_digit_run_end,
    lemma_digit_run_end_bounds, lemma_digits_val_mono, lemma_digits_val_shift, occurs_at,
    push_decimal_bytes,
};
use vstd::string::StringSliceAdditionalSpecFns;

verus! {

/// A parsed MFSK picture header.
#[derive(Debug, Clone, Copy, PartialEq, Eq)]
pub struct MfskPicHeader {
    pub width: u32,
    pub height: u32,
    pub color: bool,
    /// Receive samples-per-pixel: 8 (default), 4, or 2.
    pub rxspp: u8,
}

/// `"\nSending Pic:"` as bytes.
pub open spec fn sending_pic() -> Seq<u8> {
    seq![10u8, 83, 101, 110, 100, 105, 110, 103, 32, 80, 105, 99, 58]
}

/// `"Pic:"` as bytes.
pub open spec fn pic_tag() -> Seq<u8> {
    seq![80u8, 105, 99, 58]
}

/// The header for a `w`×`h` picture at `txspp` samples per pixel, as bytes:
/// `"\nSending Pic:" W "x" H ["C"] ["p" spp] ";"`, the `p` part only when the
/// rate is not 8.
pub open spec fn mfsk_pic_header_bytes(w: u32, h: u32, color: bool, txspp: u8) -> Seq<u8> {
    sending_pic() + decimal_bytes(w as nat) + seq![120u8] + decimal_bytes(h as nat) + (if color {
        seq![67u8]
    } else {
        Seq::empty()
    }) + (if txspp == 8 {
        Seq::empty()
    } else {
        seq![112u8] + decimal_bytes(txspp as nat)
    }) + seq![59u8]
}

/// Build the TX header string for a picture of `w`×`h` at `txspp` samples
/// per pixel.
pub fn header(w: u32, h: u32, color: bool, txspp: u8) -> (s: String)
    ensures
        s@ == latin1(mfsk_pic_header_bytes(w, h, color, txspp)),
{
    let mut v: Vec<u8> = Vec::new();
    let lead: [u8; 13] = [10, 83, 101, 110, 100, 105, 110, 103, 32, 80, 105, 99, 58];
    for i in 0..13
        invariant
            v@ == lead@.take(i as int),
    {
        v.push(lead[i]);
        assert(lead@.take(i + 1) =~= lead@.take(i as int).push(lead@[i as int]));
    }
    assert(lead@.take(13) =~= sending_pic());
    push_decimal_bytes(&mut v, w);
    v.push(120);
    push_decimal_bytes(&mut v, h);
    if color {
        v.push(67);
    }
    if txspp != 8 {
        v.push(112);
        push_decimal_bytes(&mut v, txspp as u32);
    }
    v.push(59);
    assert(v@ =~= mfsk_pic_header_bytes(w, h, color, txspp));
    latin1_string(v.as_slice())
}

/// Whether `w` and `h` are a picture size the receiver accepts: 1..=4095.
pub open spec fn in_range(w: nat, h: nat) -> bool {
    w != 0 && h != 0 && w <= 4095 && h <= 4095
}

/// The header a text window announces, as `(width, height, colour, rxspp)`:
/// after the first `"Pic:"`, a width (digits, possibly none), `x`, a height,
/// an optional `C`, then either `;` (8 samples per pixel) or `p`, one
/// character (`4` or `2` select that rate, any other leaves 8) and `;`. The
/// size must be in range.
pub open spec fn mfsk_pic_parse(b: Seq<u8>) -> Option<(nat, nat, bool, u8)> {
    match find_sub(b, pic_tag(), 0) {
        None => None,
        Some(idx) => {
            let p0 = idx + 4;
            if p0 >= b.len() {
                None
            } else {
                let p1 = digit_run_end(b, p0);
                let w = digits_val(b, p0, p1);
                if p1 >= b.len() || b[p1] != 120 {
                    None
                } else {
                    let p2 = p1 + 1;
                    let p3 = digit_run_end(b, p2);
                    let h = digits_val(b, p2, p3);
                    let color = p3 < b.len() && b[p3] == 67;
                    let p4 = if color {
                        p3 + 1
                    } else {
                        p3
                    };
                    if p4 < b.len() && b[p4] == 59 {
                        if in_range(w, h) {
                            Some((w, h, color, 8u8))
                        } else {
                            None
                        }
                    } else if !(p4 < b.len() && b[p4] == 112) {
                        None
                    } else if p4 + 1 >= b.len() {
                        None
                    } else {
                        let c = b[p4 + 1];
                        let spp: u8 = if c == 52 {
                            4
                        } else if c == 50 {
                            2
                        } else {
                            8
                        };
                        if p4 + 2 >= b.len() || b[p4 + 2] != 59 {
                            None
                        } else if in_range(w, h) {
                            Some((w, h, color, spp))
                        } else {
                            None
                        }
                    }
                }
            }
        },
    }
}

/// Whether the width and height digit runs of a window fit in 32 bits (the
/// parser accumulates them in `u32`).
pub open spec fn mfsk_pic_fits(b: Seq<u8>) -> bool {
    match find_sub(b, pic_tag(), 0) {
        None => true,
        Some(idx) => {
            let p0 = idx + 4;
            let p1 = digit_run_end(b, p0);
            p0 >= b.len() || (digits_val(b, p0, p1) <= u32::MAX && (p1 >= b.len() || b[p1] != 120
                || digits_val(b, p1 + 1, digit_run_end(b, p1 + 1)) <= u32::MAX))
        },
    }
}

/// Reads the run of digits at `p` into a `u32`: returns the value and the
/// end of the run.
fn read_digits(b: &[u8], p: usize) -> (r: (u32, usize))
    requires
        p <= b@.len(),
        digits_val(b@, p as int, digit_run_end(b@, p as int)) <= u32::MAX,
    ensures
        r.1 == digit_run_end(b@, p as int),
        r.0 == digits_val(b@, p as int, r.1 as int),
{
    proof {
        lemma_digit_run_end_bounds(b@, p as int);
    }
    let ghost end = digit_run_end(b@, p as int);
    let mut q = p;
    let mut v: u32 = 0;
    while q < b.len() && 48 <= b[q] && b[q] <= 57
        invariant
            p <= q <= end,
            end == digit_run_end(b@, p as int),
            end <= b@.len(),
            forall|k: int| p <= k < end ==> digit_byte(#[trigger] b@[k]),
            end < b@.len() ==> !digit_byte(b@[end]),
            v == digits_val(b@, p as int, q as int),
            digits_val(b@, p as int, end) <= u32::MAX,
        decreases b@.len() - q,
    {
        assert(q < end);
        proof {
            lemma_digits_val_mono(b@, p as int, q + 1, end);
        }
        v = v * 10 + (b[q] - 48) as u32;
        q = q + 1;
    }
    assert(q == end);
    (v, q)
}

/// Parse an MFSK picture header out of the current RX text window. Returns
/// `Some` only when a complete, in-range header is present: `C` is optional;
/// a `p` followed by a character other than `4`/`2` still parses but leaves
/// `rxspp = 8`; width and height must be `1..=4095`.
pub fn parse_header(window: &str) -> (r: Option<MfskPicHeader>)
    requires
        mfsk_pic_fits(window.spec_bytes()),
    ensures
        match mfsk_pic_parse(window.spec_bytes()) {
            None => r is None,
            Some(t) => r matches Some(hd) && hd.width == t.0 && hd.height == t.1 && hd.color == t.2
                && hd.rxspp == t.3,
        },
{
    let b = window.as_bytes();
    let pat: [u8; 4] = [80, 105, 99, 58];
    assert(pat@ =~= pic_tag());
    let idx = match find_bytes(b, &pat) {
        Some(i) => i,
        None => return None,
    };
    proof {
        lemma_find_sub_bounds(b@, pic_tag(), 0);
    }
    assert(idx + 4 <= b.len());
    let p0 = idx + 4;
    if p0 >= b.len() {
        return None;
    }
    let (width, p1) = read_digits(b, p0);
    if p1 >= b.len() || b[p1] != 120 {
        return None;
    }
    proof {
        lemma_digit_run_end_bounds(b@, p0 as int);
    }
    let p2 = p1 + 1;
    let (height, p3) = read_digits(b, p2);
    proof {
        lemma_digit_run_end_bounds(b@, p2 as int);
    }
    let color = p3 < b.len() && b[p3] == 67;
    let p4 = if color {
        p3 + 1
    } else {
        p3
    };
    let ok = width != 0 && height != 0 && width <= 4095 && height <= 4095;
    if p4 < b.len() && b[p4] == 59 {
        if ok {
            return Some(MfskPicHeader { width, height, color, rxspp: 8 });
        } else {
            return None;
        }
    }
    if !(p4 < b.len() && b[p4] == 112) {
        return None;
    }
    if p4 + 1 >= b.len() {
        return None;
    }
    let c = b[p4 + 1];
    let rxspp: u8 = if c == 52 {
        4
    } else if c == 50 {
        2
    } else {
        8
    };
    if p4 + 2 >= b.len() || b[p4 + 2] != 59 {
        return None;
    }
    if ok {
        Some(MfskPicHeader { width, height, color, rxspp })
    } else {
        None
    }
}

/// Whether the run of digits at `p` reads within 32 bits.
fn digits_fit(b: &[u8], p: usize) -> (r: bool)
    requires
        p <= b@.len(),
    ensures
        r == (digits_val(b@, p as int, digit_run_end(b@, p as int)) <= u32::MAX),
{
    proof {
        lemma_digit_run_end_bounds(b@, p as int);
    }
    let ghost end = digit_run_end(b@, p as int);
    let mut q = p;
    let mut v: u64 = 0;
    while q < b.len() && 48 <= b[q] && b[q] <= 57
        invariant
            p <= q <= end,
            end == digit_run_end(b@, p as int),
            end <= b@.len(),
            forall|k: int| p <= k < end ==> digit_byte(#[trigger] b@[k]),
            end < b@.len() ==> !digit_byte(b@[end]),
            v == digits_val(b@, p as int, q as int),
            v <= u32::MAX,
        decreases b@.len() - q,
    {
        assert(q < end);
        let nv = v * 10 + (b[q] - 48) as u64;
        if nv > 0xFFFF_FFFFu64 {
            proof {
                lemma_digits_val_mono(b@, p as int, q + 1, end);
            }
            return false;
        }
        v = nv;
        q = q + 1;
    }
    assert(q == end);
    true
}

/// Whether the digit runs of a header in `b` fit in 32 bits.
fn header_fits(b: &[u8]) -> (r: bool)
    ensures
        r == mfsk_pic_fits(b@),
{
    let pat: [u8; 4] = [80, 105, 99, 58];
    assert(pat@ =~= pic_tag());
    let idx = match find_bytes(b, &pat) {
        Some(i) => i,
        None => return true,
    };
    proof {
        lemma_find_sub_bounds(b@, pic_tag(), 0);
    }
    assert(idx + 4 <= b.len());
    let p0 = idx + 4;
    if p0 >= b.len() {
        return true;
    }
    if !digits_fit(b, p0) {
        return false;
    }
    let (_, p1) = read_digits(b, p0);
    proof {
        lemma_digit_run_end_bounds(b@, p0 as int);
    }
    if p1 >= b.len() || b[p1] != 120 {
        return true;
    }
    digits_fit(b, p1 + 1)
}

/// Parse an MFSK picture header out of the current RX text window, for any
/// window: `None` when the width or height digits overflow 32 bits,
/// otherwise exactly what [`parse_header`] gives.
pub fn try_parse_header(window: &str) -> (r: Option<MfskPicHeader>)
    ensures
        !mfsk_pic_fits(window.spec_bytes()) ==> r is None,
        mfsk_pic_fits(window.spec_bytes()) ==> match mfsk_pic_parse(window.spec_bytes()) {
            None => r is None,
            Some(t) => r matches Some(hd) && hd.width == t.0 && hd.height == t.1 && hd.color
                == t.2 && hd.rxspp == t.3,
        },
{
    if header_fits(window.as_bytes()) {
        parse_header(window)
    } else {
        None
    }
}

proof fn lemma_find_sub_bounds(s: Seq<u8>, pat: Seq<u8>, i: int)
    requires
        0 <= i,
    ensures
        find_sub(s, pat, i) matches Some(k) ==> i <= k && k + pat.len() <= s.len(),
    decreases s.len() - i,
{
    if i + pat.len() <= s.len() && !occurs_at(s, pat, i) && i < s.len() {
        lemma_find_sub_bounds(s, pat, i + 1);
    }
}

/// A header built for a size in range, at 8, 4 or 2 samples per pixel,
/// parses back to that size, colour and rate.
#[verifier::rlimit(60)]
pub proof fn lemma_mfsk_pic_header_round_trip(w: u32, h: u32, color: bool, spp: u8)
    requires
        1 <= w <= 4095,
        1 <= h <= 4095,
        spp == 8 || spp == 4 || spp == 2,
    ensures
        mfsk_pic_parse(vstd::utf8::encode_utf8(latin1(mfsk_pic_header_bytes(w, h, color, spp))))
            == Some((w as nat, h as nat, color, spp)),
        mfsk_pic_fits(vstd::utf8::encode_utf8(latin1(mfsk_pic_header_bytes(w, h, color, spp)))),
{
    let dw = decimal_bytes(w as nat);
    let dh = decimal_bytes(h as nat);
    let ctail: Seq<u8> = if color {
        seq![67u8]
    } else {
        Seq::empty()
    };
    let stail: Seq<u8> = if spp == 8 {
        Seq::empty()
    } else {
        seq![112u8] + decimal_bytes(spp as nat)
    };
    let b = mfsk_pic_header_bytes(w, h, color, spp);
    lemma_decimal_bytes(w as nat);
    lemma_decimal_bytes(h as nat);
    assert(all_ascii(b)) by {
        assert forall|i: int| 0 <= i < b.len() implies #[trigger] b[i] < 128 by {
            if 13 <= i < 13 + dw.len() {
                assert(b[i] == dw[i - 13]);
                assert(digit_byte(dw[i - 13]));
            } else if 14 + dw.len() <= i < 14 + dw.len() + dh.len() {
                assert(b[i] == dh[i - 14 - dw.len()]);
                assert(digit_byte(dh[i - 14 - dw.len()]));
            } else if spp != 8 && i == b.len() - 2 {
                assert(decimal_bytes(spp as nat) == seq![(48 + spp) as u8]);
            }
        }
    }
    lemma_ascii_encode(b);
    let pat = pic_tag();
    assert(occurs_at(b, pat, 9)) by {
        assert(b.subrange(9, 13) =~= pat);
    }
    assert(find_sub(b, pat, 9) == Some(9int));
    assert forall|i: int| 0 <= i < 9 implies !occurs_at(b, pat, i) by {
        assert(b.subrange(i, i + 4)[0] == b[i]);
    }
    assert(find_sub(b, pat, 8) == Some(9int));
    assert(find_sub(b, pat, 7) == Some(9int));
    assert(find_sub(b, pat, 6) == Some(9int));
    assert(find_sub(b, pat, 5) == Some(9int));
    assert(find_sub(b, pat, 4) == Some(9int));
    assert(find_sub(b, pat, 3) == Some(9int));
    assert(find_sub(b, pat, 2) == Some(9int));
    assert(find_sub(b, pat, 1) == Some(9int));
    assert(find_sub(b, pat, 0) == Some(9int));
    let p1: int = 13 + dw.len() as int;
    assert(b[p1] == 120);
    assert forall|k: int| 13 <= k < p1 implies digit_byte(#[trigger] b[k]) by {
        assert(b[k] == dw[k - 13]);
    }
    lemma_digit_run_end(b, 13, p1);
    let rest1 = seq![120u8] + dh + ctail + stail + seq![59u8];
    assert(b =~= sending_pic() + dw + rest1);
    lemma_digits_val_shift(sending_pic(), dw, rest1, dw.len() as int);
    let p3: int = p1 + 1 + dh.len() as int;
    let pre2 = sending_pic() + dw + seq![120u8];
    let rest2 = ctail + stail + seq![59u8];
    assert(b =~= pre2 + dh + rest2);
    assert forall|k: int| p1 + 1 <= k < p3 implies digit_byte(#[trigger] b[k]) by {
        assert(b[k] == dh[k - p1 - 1]);
    }
    assert(b[p3] == rest2[0]);
    assert(!digit_byte(b[p3]));
    lemma_digit_run_end(b, p1 + 1, p3);
    lemma_digits_val_shift(pre2, dh, rest2, dh.len() as int);
    if spp != 8 {
        assert(decimal_bytes(spp as nat) == seq![(48 + spp) as u8]);
    }
}

} // verus!
