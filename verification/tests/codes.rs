use omnimodem_dsp::msk144::message_type_rejected;
use omnimodem_dsp::afsk1200::preamble_bits;
use omnimodem_dsp::dominoex::ifk_tones;
use omnimodem_dsp::fst4::fst4_tones_from_codeword;
use omnimodem_dsp::hell::{column_pixels, image_columns, COLUMN_ROWS};
use omnimodem_dsp::ifk33::{advance, invert, syms_to_tones, NUMTONES};
use omnimodem_dsp::js8::{js8_symbols_from_codeword, Js8Submode, JS8_RATE, JS8_COSTAS_ORIG, JS8_COSTAS_SYM_A, JS8_COSTAS_SYM_B, JS8_COSTAS_SYM_C};
use omnimodem_dsp::jt4::{interleave_code_bits, interleave_table, sync_bits, JT4_SYMBOLS};
use omnimodem_dsp::jt65::{bits72_to_rs_symbols, rs_symbols_to_bits72};
use omnimodem_dsp::mfsk::conv_stream;
use omnimodem_dsp::msk144::tones_from_codeword;
use omnimodem_dsp::mt63::{flush_tail, framed};
use omnimodem_dsp::ofdm::Interleave;
use omnimodem_dsp::rsid::{encode, tx_for_mode, RsidTx};

fn digits(s: &str) -> Vec<u8> {
    s.bytes().map(|c| c - b'0').collect()
}

#[test]
fn advance_and_invert_are_inverse() {
    for offset in [1u32, 2] {
        let mut prev = 0u32;
        for sym in [0u8, 5, 28, 30, 31, 32, 1, 17] {
            let t = advance(prev, sym, offset);
            assert!(t < NUMTONES);
            assert_eq!(invert(prev, t, offset), sym % NUMTONES as u8);
            prev = t;
        }
    }
}

#[test]
fn syms_to_tones_seeds_at_zero() {
    assert_eq!(syms_to_tones(&[3], 1)[0], 4);
    assert_eq!(syms_to_tones(&[3, 29], 1), vec![4, 1]);
}

#[test]
fn dominoex_ifk_tones_of_reference_nibbles() {
    // The IFK+ tones of the varicode nibbles of "CQ DE K1ABC".
    let nibbles: Vec<u8> =
        "3c6f03e3806a4a394e3c".chars().map(|c| c.to_digit(16).unwrap() as u8).collect();
    let want: Vec<u32> = vec![5, 1, 9, 8, 10, 15, 13, 0, 10, 12, 2, 14, 2, 14, 1, 12, 0, 16, 3, 17];
    let tones = ifk_tones(&nibbles);
    assert_eq!(tones, want);
    assert!(tones.iter().all(|&t| t < 18));
    for w in tones.windows(2) {
        assert_ne!(w[0], w[1]);
    }
}

#[test]
fn interleave_is_a_permutation() {
    let j0 = interleave_table();
    let mut seen = [false; JT4_SYMBOLS];
    for &v in &j0 {
        assert!(v < JT4_SYMBOLS);
        assert!(!seen[v], "interleave value {v} repeats");
        seen[v] = true;
    }
    assert!(seen.iter().all(|&b| b), "interleave is not onto");
    assert_eq!(&j0[..10], &[0, 128, 64, 192, 32, 160, 96, 16, 144, 80]);
}

#[test]
fn jt4_sync_bits_drop_the_first_npr_element() {
    let s = sync_bits();
    assert_eq!(s.len(), 206);
    assert_eq!(&s[..8], &[0, 0, 0, 1, 1, 0, 0, 0]);
}

#[test]
fn bits_rs_symbols_round_trip() {
    let bits: [u8; 72] = std::array::from_fn(|i| ((i * 5 + 1) % 2) as u8);
    let syms = bits72_to_rs_symbols(&bits);
    assert_eq!(rs_symbols_to_bits72(&syms), bits);
}

#[test]
fn rs_symbols_pack_msb_first() {
    let mut bits = [0u8; 72];
    bits[0] = 1;
    bits[11] = 1;
    bits[71] = 1;
    let syms = bits72_to_rs_symbols(&bits);
    assert_eq!(syms[0], 32);
    assert_eq!(syms[1], 1);
    assert_eq!(syms[11], 1);
    assert_eq!(rs_symbols_to_bits72(&[63; 12]), [1u8; 72]);
}

#[test]
fn js8_frame_from_codeword() {
    let cw: [u8; 174] = std::array::from_fn(|i| ((i * 7 + 3) % 5 % 2) as u8);
    let normal = js8_symbols_from_codeword(&cw, Js8Submode::Normal);
    let fast = js8_symbols_from_codeword(&cw, Js8Submode::Fast);
    assert_eq!(normal.to_vec(), digits("4256130430614306143061430614306143064256130143061430614306143061430614304256130"));
    assert_eq!(fast.to_vec(), digits("0623541430614306143061430614306143061502364143061430614306143061430614302506413"));
    assert_eq!(&normal[0..7], &JS8_COSTAS_ORIG);
    assert_eq!(&fast[0..7], &JS8_COSTAS_SYM_A);
    assert_eq!(&fast[36..43], &JS8_COSTAS_SYM_B);
    assert_eq!(&fast[72..79], &JS8_COSTAS_SYM_C);
    assert_eq!(Js8Submode::Slow.costas(), [JS8_COSTAS_SYM_A, JS8_COSTAS_SYM_B, JS8_COSTAS_SYM_C]);
    assert_eq!(Js8Submode::Normal.costas(), [JS8_COSTAS_ORIG; 3]);
}

#[test]
fn msk144_tone_map_of_a_codeword() {
    let cw: [u8; 128] = std::array::from_fn(|i| ((i * i + 1) % 3 % 2) as u8);
    let tones = tones_from_codeword(&cw);
    assert_eq!(tones.to_vec(), digits("110000101110001110001110001110001110001110001110001110011100001011100011100011100011100011100011100011100011100011100011100011100011100011100011"));
}

#[test]
fn fst4_frame_from_codeword() {
    let cw: [u8; 240] = std::array::from_fn(|i| ((i / 3) % 2) as u8);
    let tones = fst4_tones_from_codeword(&cw);
    assert_eq!(tones.to_vec(), digits("0132102301201201201201201201201201201223103201012012012012012012012012012012013210230120120120120120120120120120122310320101201201201201201201201201201201321023"));
}

#[test]
fn known_symbol_sequences() {
    assert_eq!(encode(263), [8, 10, 3, 14, 12, 12, 5, 1, 7, 1, 14, 5, 8, 3, 7]);
    assert_eq!(encode(57), [0, 1, 0, 14, 9, 15, 8, 1, 15, 7, 8, 14, 6, 6, 9]);
}

#[test]
fn tx_for_mode_resolves_primary_and_extended() {
    assert_eq!(tx_for_mode("psk31"), Some(RsidTx::Primary(1)));
    assert_eq!(tx_for_mode("mfsk16"), Some(RsidTx::Primary(57)));
    assert_eq!(tx_for_mode("mfsk64"), Some(RsidTx::Extended(620)));
    assert_eq!(tx_for_mode("thor100"), Some(RsidTx::Extended(658)));
    assert_eq!(tx_for_mode("bogus"), None);
}

#[test]
fn rsid_extended_code_symbols() {
    assert_eq!(encode(620), [9, 15, 1, 12, 4, 10, 10, 7, 2, 9, 2, 4, 7, 15, 12]);
}

#[test]
fn conv_stream_k7_code_bits() {
    let bits = [1u8, 0, 1, 1, 0, 0, 1, 0, 1, 1];
    assert_eq!(
        conv_stream(&bits),
        vec![1, 1, 0, 1, 0, 0, 0, 1, 1, 0, 1, 0, 1, 1, 1, 1, 0, 1, 1, 0]
    );
}

#[test]
fn preamble_is_hdlc_flags_lsb_first() {
    assert_eq!(preamble_bits(2), vec![0, 1, 1, 1, 1, 1, 1, 0, 0, 1, 1, 1, 1, 1, 1, 0]);
    assert!(preamble_bits(0).is_empty());
}

#[test]
fn image_columns_inverts_column_pixels() {
    let cols = vec![0u16, 4088, 0, 7360];
    let px = column_pixels(&cols);
    let gray: Vec<u8> = px.iter().map(|&b| if b { 255 } else { 0 }).collect();
    assert_eq!(image_columns(COLUMN_ROWS as u16, &gray), cols);
}

#[test]
fn image_columns_ignores_partial_row_and_thresholds() {
    let mut gray = vec![0u8; 14];
    gray[0] = 128;
    gray[13] = 200;
    gray[5] = 127;
    gray.extend_from_slice(&[255, 255, 255]);
    assert_eq!(image_columns(14, &gray), vec![1 | (1 << 13)]);
}

#[test]
fn mt63_framing_pads_with_nul_flush() {
    let v = framed("hi\u{e9}", Interleave::Short);
    assert_eq!(v.len(), 32 + 4 + 32);
    assert!(v[..32].iter().all(|&b| b == 0));
    assert_eq!(&v[32..36], &[b'h', b'i', 0xc3 & 0x7f, 0xa9 & 0x7f]);
    assert!(v[36..].iter().all(|&b| b == 0));
    assert_eq!(flush_tail(Interleave::Long), 64);
}

/// Submode grid matches the reference constants.
#[test]
fn submode_grid() {
    assert_eq!(Js8Submode::Normal.params().nsps, 1920);
    assert_eq!(Js8Submode::Fast.params().nsps, 1200);
    assert_eq!(Js8Submode::Turbo.params().nsps, 600);
    assert_eq!(Js8Submode::Slow.params().nsps, 3840);
    assert_eq!(Js8Submode::Ultra.params().nsps, 384);
    let spacing = JS8_RATE as f64 / Js8Submode::Normal.params().nsps as f64;
    assert!((spacing - 6.25).abs() < 1e-9);
    assert!(!Js8Submode::Normal.params().symmetrical_costas);
    assert!(Js8Submode::Fast.params().symmetrical_costas);
    assert_eq!(Js8Submode::Slow.params().tx_seconds, 30);
    assert_eq!(Js8Submode::Fast.params().start_delay_ms, 200);
    assert_eq!(Js8Submode::Turbo.params().name, "TURBO");
}

#[test]
fn jt4_code_bits_land_on_the_interleave_table() {
    let mut coded = [0u8; 206];
    for (i, b) in coded.iter_mut().enumerate() {
        *b = u8::from(i % 3 == 1);
    }
    let out = interleave_code_bits(&coded);
    let j0 = interleave_table();
    for i in 0..206 {
        assert_eq!(out[j0[i]], coded[i]);
    }
    // Code bit 1 sits at position 128, bit 4 at 32.
    assert_eq!(out[128], 1);
    assert_eq!(out[32], 1);
    assert_eq!(out[0], 0);
    assert_eq!(out.iter().filter(|&&b| b == 1).count(), coded.iter().filter(|&&b| b == 1).count());
}

#[test]
fn msk144_rejects_discarded_message_types() {
    let with = |n3: u8, i3: u8| {
        let mut m = [0u8; 77];
        for k in 0..3 {
            m[71 + k] = (n3 >> (2 - k)) & 1;
            m[74 + k] = (i3 >> (2 - k)) & 1;
        }
        message_type_rejected(&m)
    };
    assert!(!with(0, 1));
    assert!(!with(0, 0));
    assert!(with(1, 0));
    assert!(with(3, 0));
    assert!(with(4, 0));
    assert!(!with(5, 0));
    assert!(with(6, 0));
    assert!(!with(0, 2));
    assert!(with(0, 3));
    assert!(!with(0, 4));
    assert!(!with(0, 5));
    assert!(with(0, 6));
}
