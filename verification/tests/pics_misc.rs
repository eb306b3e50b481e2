use omnimodem_dsp::contestia::{char_to_symbol, chips_per_symbol, symbol_to_char, symbols_per_char};
use omnimodem_dsp::fsq_pic::{self, FsqPicMode};
use omnimodem_dsp::ifkp_pic::{self, IfkpPicSize};
use omnimodem_dsp::mfsk_pic;
use omnimodem_dsp::resample::gcd;
use omnimodem_dsp::sdr_demod::wfm_if_rate;
use omnimodem_dsp::spectrum::round_fft_size;

#[test]
fn header_round_trips_through_parse() {
    for &(w, h, color, spp) in &[(320, 240, true, 8), (160, 120, false, 4), (64, 64, true, 2)] {
        let hdr = mfsk_pic::header(w, h, color, spp);
        let p = mfsk_pic::parse_header(&hdr).expect("built header must parse");
        assert_eq!((p.width, p.height, p.color, p.rxspp), (w, h, color, spp));
    }
}

#[test]
fn mfsk_pic_header_text_and_quirks() {
    assert_eq!(mfsk_pic::header(320, 240, true, 8), "\nSending Pic:320x240C;");
    assert_eq!(mfsk_pic::header(160, 120, false, 4), "\nSending Pic:160x120p4;");
    // A 'p' followed by a digit other than 4/2 still parses at 8 samples/pixel.
    let p = mfsk_pic::parse_header("xx Pic:10x20p9;").unwrap();
    assert_eq!((p.width, p.height, p.color, p.rxspp), (10, 20, false, 8));
    // Out-of-range sizes and malformed headers are rejected.
    assert!(mfsk_pic::parse_header("Pic:0x20;").is_none());
    assert!(mfsk_pic::parse_header("Pic:4096x20;").is_none());
    assert!(mfsk_pic::parse_header("Pic:10y20;").is_none());
    assert!(mfsk_pic::parse_header("Pic:10x20").is_none());
    assert!(mfsk_pic::parse_header("no header").is_none());
}

#[test]
fn fsq_pic_header_round_trips() {
    let modes = [
        FsqPicMode::Small,
        FsqPicMode::Large,
        FsqPicMode::VgaGrey,
        FsqPicMode::VgaColor,
        FsqPicMode::PortraitColor,
        FsqPicMode::PortraitGrey,
        FsqPicMode::MiniColor,
        FsqPicMode::MiniGrey,
    ];
    for (i, m) in modes.into_iter().enumerate() {
        let hdr = fsq_pic::header(m);
        let p = fsq_pic::parse_header(&hdr).expect("built header must parse");
        assert_eq!((p.width, p.height), m.dims());
        assert_eq!(p.color, m.color());
        let _ = i;
    }
    assert_eq!(fsq_pic::header(FsqPicMode::Large), "% L");
    assert_eq!(fsq_pic::parse_header("w1hkj % p").unwrap().image_mode, 5);
    assert!(fsq_pic::parse_header("% Q").is_none());
    assert!(fsq_pic::parse_header("% ").is_none());
    assert_eq!(FsqPicMode::MiniGrey.mode_char(), 'm');
}

#[test]
fn ifkp_pic_header_round_trips() {
    let sizes = [
        IfkpPicSize::Thumb,
        IfkpPicSize::Mini,
        IfkpPicSize::Portrait,
        IfkpPicSize::Small,
        IfkpPicSize::Large,
        IfkpPicSize::Vga,
    ];
    for s in sizes {
        for grey in [false, true] {
            let hdr = ifkp_pic::header(s, grey);
            let p = ifkp_pic::parse_header(&hdr).expect("built header must parse");
            assert_eq!((p.width, p.height), s.dims());
            assert_eq!(p.color, !grey);
            assert!(!p.avatar);
        }
    }
    assert_eq!(ifkp_pic::header(IfkpPicSize::Vga, true), " pic%F");
    let a = ifkp_pic::parse_header("pic%A").unwrap();
    assert!(a.avatar && a.color && (a.width, a.height) == (59, 74));
    assert!(ifkp_pic::parse_header("pic%Z").is_none());
    assert_eq!(IfkpPicSize::Small.tx_char(true), 's');
}

#[test]
fn wfm_if_rate_snaps_to_channel_multiple() {
    assert_eq!(wfm_if_rate(240_000, 48_000), 192_000);
    assert_eq!(wfm_if_rate(96_000, 48_000), 96_000);
}

#[test]
fn wfm_if_rate_falls_back_to_capture() {
    assert_eq!(wfm_if_rate(30_000, 48_000), 30_000);
    assert_eq!(wfm_if_rate(1_000_000, 200_000), 200_000);
}

#[test]
fn fft_size_rounds_up_to_power_of_two() {
    assert_eq!(round_fft_size(0), 2048);
    assert_eq!(round_fft_size(1500), 2048);
    assert_eq!(round_fft_size(10), 64);
    assert_eq!(round_fft_size(65), 128);
    assert_eq!(round_fft_size(100_000), 16384);
    assert_eq!(round_fft_size(4096), 4096);
}

#[test]
fn gcd_reduces_rates() {
    assert_eq!(gcd(48_000, 44_100), 300);
    assert_eq!(gcd(12, 0), 12);
    assert_eq!(gcd(0, 0), 0);
}

#[test]
fn contestia_charset_maps() {
    assert_eq!(char_to_symbol(b' '), 0);
    assert_eq!(char_to_symbol(b'a'), 1);
    assert_eq!(char_to_symbol(b'Z'), 26);
    assert_eq!(char_to_symbol(b'4'), 31);
    assert_eq!(char_to_symbol(b'9'), 0);
    assert_eq!(symbol_to_char(26), 'Z');
    assert_eq!(symbol_to_char(33), 'A');
    assert_eq!(chips_per_symbol(32), 5);
    assert_eq!(chips_per_symbol(0), 32);
    assert_eq!(symbols_per_char(8), 11);
    assert_eq!(symbols_per_char(32), 7);
}
