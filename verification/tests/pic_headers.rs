//! Picture-header build and parse cases, one table row per protocol case.
use omnimodem_dsp::fsq_pic::{self, FsqPicMode};
use omnimodem_dsp::ifkp_pic::{self, IfkpPicSize};
use omnimodem_dsp::mfsk_pic;

fn fsq_mode_for(w: u32, h: u32, grey: bool) -> FsqPicMode {
    [
        FsqPicMode::Small,
        FsqPicMode::Large,
        FsqPicMode::VgaGrey,
        FsqPicMode::VgaColor,
        FsqPicMode::PortraitColor,
        FsqPicMode::PortraitGrey,
        FsqPicMode::MiniColor,
        FsqPicMode::MiniGrey,
    ]
    .into_iter()
    .find(|m| m.dims() == (w, h) && m.color() != grey)
    .unwrap()
}

#[test]
fn fsq_pic_tx_header_matches_fldigi_vector() {
    let cases: [(u32, u32, bool, &str); 8] = [
        (160, 120, false, "% S"),
        (320, 240, false, "% L"),
        (640, 480, true, "% F"),
        (640, 480, false, "% V"),
        (240, 300, false, "% P"),
        (240, 300, true, "% p"),
        (120, 150, false, "% M"),
        (120, 150, true, "% m"),
    ];
    for (w, h, grey, want) in cases {
        assert_eq!(fsq_pic::header(fsq_mode_for(w, h, grey)), want, "header build differs from fldigi");
    }
}

#[test]
fn fsq_pic_rx_parse_matches_fldigi_vector() {
    // (mode character, parses, width, height, colour, image mode)
    let cases: [(char, bool, u32, u32, bool, u8); 12] = [
        ('L', true, 320, 240, true, 0),
        ('S', true, 160, 120, true, 1),
        ('F', true, 640, 480, false, 2),
        ('V', true, 640, 480, true, 3),
        ('P', true, 240, 300, true, 4),
        ('p', true, 240, 300, false, 5),
        ('M', true, 120, 150, true, 6),
        ('m', true, 120, 150, false, 7),
        ('l', false, 0, 0, false, 0),
        ('T', false, 0, 0, false, 0),
        ('v', false, 0, 0, false, 0),
        ('x', false, 0, 0, false, 0),
    ];
    for (c, ok, w, h, color, mode) in cases {
        let window = format!("% {c}");
        let got = fsq_pic::parse_header(&window);
        assert_eq!(got.is_some(), ok, "parse ok/{ok} differs for {c:?}");
        if ok {
            let g = got.unwrap();
            assert_eq!(g.width, w, "W for {c:?}");
            assert_eq!(g.height, h, "H for {c:?}");
            assert_eq!(g.color, color, "colour for {c:?}");
            assert_eq!(g.image_mode, mode, "mode for {c:?}");
        }
    }
}

fn ifkp_size_for(w: u32, h: u32) -> IfkpPicSize {
    [
        IfkpPicSize::Thumb,
        IfkpPicSize::Mini,
        IfkpPicSize::Portrait,
        IfkpPicSize::Small,
        IfkpPicSize::Large,
        IfkpPicSize::Vga,
    ]
    .into_iter()
    .find(|s| s.dims() == (w, h))
    .unwrap()
}

#[test]
fn ifkp_pic_tx_header_matches_fldigi_vector() {
    let cases: [(u32, u32, bool, &str); 12] = [
        (59, 74, false, " pic%T"),
        (59, 74, true, " pic%t"),
        (120, 150, false, " pic%M"),
        (120, 150, true, " pic%m"),
        (240, 300, false, " pic%P"),
        (240, 300, true, " pic%p"),
        (160, 120, false, " pic%S"),
        (160, 120, true, " pic%s"),
        (320, 240, false, " pic%L"),
        (320, 240, true, " pic%l"),
        (640, 480, false, " pic%V"),
        (640, 480, true, " pic%F"),
    ];
    for (w, h, grey, want) in cases {
        assert_eq!(ifkp_pic::header(ifkp_size_for(w, h), grey), want, "header build differs from fldigi");
    }
}

#[test]
fn ifkp_pic_rx_parse_matches_fldigi_vector() {
    // (size character, parses, width, height, colour, avatar)
    let cases: [(char, bool, u32, u32, bool, bool); 17] = [
        ('A', true, 59, 74, true, true),
        ('T', true, 59, 74, true, false),
        ('t', true, 59, 74, false, false),
        ('S', true, 160, 120, true, false),
        ('s', true, 160, 120, false, false),
        ('L', true, 320, 240, true, false),
        ('l', true, 320, 240, false, false),
        ('V', true, 640, 480, true, false),
        ('v', true, 640, 480, false, false),
        ('F', true, 640, 480, false, false),
        ('P', true, 240, 300, true, false),
        ('p', true, 240, 300, false, false),
        ('M', true, 120, 150, true, false),
        ('m', true, 120, 150, false, false),
        ('a', false, 0, 0, false, false),
        ('f', false, 0, 0, false, false),
        ('Z', false, 0, 0, false, false),
    ];
    for (c, ok, w, h, color, avatar) in cases {
        let window = format!("some text pic%{c}");
        let got = ifkp_pic::parse_header(&window);
        assert_eq!(got.is_some(), ok, "parse ok/{ok} differs for {c:?}");
        if ok {
            let g = got.unwrap();
            assert_eq!(g.width, w, "W for {c:?}");
            assert_eq!(g.height, h, "H for {c:?}");
            assert_eq!(g.color, color, "colour for {c:?}");
            assert_eq!(g.avatar, avatar, "avatar for {c:?}");
        }
    }
}

#[test]
fn mfsk_pic_tx_header_matches_fldigi_vector() {
    let cases: [(u32, u32, bool, u8, &str); 6] = [
        (320, 240, true, 8, "\nSending Pic:320x240C;"),
        (320, 240, true, 4, "\nSending Pic:320x240Cp4;"),
        (160, 120, false, 8, "\nSending Pic:160x120;"),
        (160, 120, false, 2, "\nSending Pic:160x120p2;"),
        (640, 480, true, 2, "\nSending Pic:640x480Cp2;"),
        (59, 74, false, 4, "\nSending Pic:59x74p4;"),
    ];
    for (w, h, color, txspp, want) in cases {
        assert_eq!(mfsk_pic::header(w, h, color, txspp), want, "header build differs from fldigi");
    }
}

#[test]
fn mfsk_pic_rx_parse_matches_fldigi_vector() {
    // (window, parses, width, height, colour, rx samples per pixel)
    let cases: [(&str, bool, u32, u32, bool, u8); 16] = [
        ("\nSending Pic:320x240C;", true, 320, 240, true, 8),
        ("Pic:160x120;", true, 160, 120, false, 8),
        ("Pic:64x64Cp2;", true, 64, 64, true, 2),
        ("Pic:64x64p4;", true, 64, 64, false, 4),
        ("Pic:0x240;", false, 0, 0, false, 0),
        ("Pic:4096x10;", false, 0, 0, false, 0),
        ("Pic:4095x4095C;", true, 4095, 4095, true, 8),
        ("Pic:320x240", false, 0, 0, false, 0),
        ("Pic:320y240;", false, 0, 0, false, 0),
        ("Pic:320x240Cp;", false, 0, 0, false, 0),
        ("Pic:320x240p9;", true, 320, 240, false, 8),
        ("Pic:", false, 0, 0, false, 0),
        ("xxPic:12x34Cp4;yy", true, 12, 34, true, 4),
        ("Sending Pic:320x240Cq;", false, 0, 0, false, 0),
        ("Pic:x10;", false, 0, 0, false, 0),
        ("Pic:10x;", false, 0, 0, false, 0),
    ];
    for (s, ok, w, h, color, rxspp) in cases {
        let got = mfsk_pic::parse_header(s);
        assert_eq!(got.is_some(), ok, "parse ok/{ok} differs for {s:?}");
        if ok {
            let g = got.unwrap();
            assert_eq!(g.width, w, "W for {s:?}");
            assert_eq!(g.height, h, "H for {s:?}");
            assert_eq!(g.color, color, "colour for {s:?}");
            assert_eq!(g.rxspp, rxspp, "rxspp for {s:?}");
        }
    }
}

#[test]
fn mfsk_pic_try_parse_declines_overlong_digits() {
    assert_eq!(mfsk_pic::try_parse_header("\nSending Pic:99999999999x10;"), None);
    assert_eq!(mfsk_pic::try_parse_header("\nSending Pic:10x99999999999C;"), None);
    let h = mfsk_pic::try_parse_header("\nSending Pic:320x240Cp4;").expect("header");
    assert_eq!((h.width, h.height, h.color, h.rxspp), (320, 240, true, 4));
    assert_eq!(mfsk_pic::try_parse_header("no header here"), None);
}
