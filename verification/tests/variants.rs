use omnimodem_dsp::contestia::{ContestiaMod, ContestiaVariant};
use omnimodem_dsp::dominoex::DominoVariant;
use omnimodem_dsp::fsq::FsqSpeed;
use omnimodem_dsp::hell::HellVariant;
use omnimodem_dsp::ifkp::IfkpSpeed;
use omnimodem_dsp::jt4::Jt4Submode;
use omnimodem_dsp::mfsk::MfskVariant;
use omnimodem_dsp::mt63::Mt63Variant;
use omnimodem_dsp::navtex::NavtexVariant;
use omnimodem_dsp::ofdm::Interleave;

#[test]
fn grid_has_the_fldigi_submodes() {
    assert_eq!(ContestiaVariant::all().len(), 19);
    assert!(ContestiaVariant::from_label("contestia8_500").is_some());
    assert!(ContestiaVariant::from_label("contestia32_1000").is_some());
    assert!(ContestiaVariant::from_label("contestia16_125").is_none());
    assert!(ContestiaVariant::from_label("contestia64_250").is_none());
    assert!(ContestiaVariant::from_label("olivia32_1000").is_none());
}

#[test]
fn contestia_labels_round_trip() {
    for &v in ContestiaVariant::all() {
        assert_eq!(ContestiaVariant::from_label(&v.label()), Some(v));
    }
    assert_eq!(ContestiaVariant::new(8, 500).label(), "contestia8_500");
    // Rust's u16 parser accepts a leading '+' and leading zeros.
    assert_eq!(ContestiaVariant::from_label("contestia+8_0500"), Some(ContestiaVariant::new(8, 500)));
    assert!(ContestiaVariant::from_label("contestia8500").is_none());
    assert!(ContestiaVariant::from_label("contestia8_500_").is_none());
    assert!(ContestiaVariant::from_label("contestia99999_500").is_none());
    assert_eq!(ContestiaMod::new(8, 500).v, ContestiaVariant::new(8, 500));
}

#[test]
fn dominoex_labels_round_trip() {
    for &v in DominoVariant::all() {
        assert_eq!(DominoVariant::from_label(v.label()), Some(v));
    }
    assert_eq!(DominoVariant::from_label("dominoex99"), None);
    assert_eq!(DominoVariant::all().len(), 9);
}

#[test]
fn dominoex_params() {
    assert_eq!(DominoVariant::D5.samplerate(), 11025);
    assert_eq!(DominoVariant::D8.samples_per_symbol(), 1024);
    assert_eq!(DominoVariant::D16.samples_per_symbol(), 512);
    assert_eq!(DominoVariant::D16.samplerate(), 8000);
    assert_eq!(DominoVariant::D11.samplerate(), 11025);
    assert_eq!(DominoVariant::Micro.params().symlen, 4000);
    assert_eq!(DominoVariant::D8.params().doublespaced, 2);
}

#[test]
fn hell_labels_round_trip() {
    for &v in HellVariant::all() {
        assert_eq!(HellVariant::from_label(v.label()), Some(v));
        assert_eq!(v.samplerate(), 8000);
    }
    assert_eq!(HellVariant::from_label("hell9000"), None);
    assert_eq!(HellVariant::all().len(), 5);
}

#[test]
fn ifkp_labels_round_trip() {
    for &s in IfkpSpeed::all() {
        assert_eq!(IfkpSpeed::from_label(s.label()), Some(s));
    }
    assert_eq!(IfkpSpeed::from_label("ifkp-normal"), Some(IfkpSpeed::Normal));
    assert_eq!(IfkpSpeed::from_label("ifkp-turbo"), None);
    assert_eq!(IfkpSpeed::Slow.symlen(), 8192);
    assert_eq!(IfkpSpeed::Normal.symlen(), 4096);
    assert_eq!(IfkpSpeed::Fast.symlen(), 2048);
}

#[test]
fn jt4_submode_labels_and_nch() {
    let nch = [1, 2, 4, 9, 18, 36, 72];
    for (v, expect) in Jt4Submode::ALL.into_iter().zip(nch) {
        assert_eq!(v.nch(), expect);
        assert_eq!(Jt4Submode::from_label(v.label()), Some(v));
    }
    assert_eq!(Jt4Submode::from_label("jt4z"), None);
}

#[test]
fn numtones_is_two_pow_symbits() {
    for &v in MfskVariant::all() {
        let p = v.params();
        assert_eq!(p.numtones(), 1 << p.symbits, "{}", v.label());
    }
}

#[test]
fn mfsk_labels_round_trip() {
    for &v in MfskVariant::all() {
        assert_eq!(MfskVariant::from_label(v.label()), Some(v));
    }
    assert_eq!(MfskVariant::from_label("mfsk99"), None);
    assert_eq!(MfskVariant::all().len(), 11);
}

#[test]
fn mfsk_params() {
    assert_eq!(MfskVariant::M11.samplerate(), 11025);
    assert_eq!(MfskVariant::M8.params().symbits, 5);
    assert_eq!(MfskVariant::M31.params().numtones(), 8);
    assert_eq!(MfskVariant::M128L.params().depth, 800);
}

#[test]
fn params_map_bandwidth_and_interleave() {
    assert_eq!(Mt63Variant::B1000Long.bandwidth(), 1000);
    assert_eq!(Mt63Variant::B1000Long.interleave(), Interleave::Long);
    assert_eq!(Mt63Variant::B500Short.interleave(), Interleave::Short);
    assert_eq!(Mt63Variant::B2000Short.bandwidth(), 2000);
}

#[test]
fn mt63_labels_round_trip() {
    for &v in Mt63Variant::all() {
        assert_eq!(Mt63Variant::from_label(v.label()), Some(v));
    }
    assert_eq!(Mt63Variant::from_label("mt63_9000x"), None);
    assert_eq!(Mt63Variant::all().len(), 6);
    assert_eq!(Interleave::Short.depth(), 32);
    assert_eq!(Interleave::Long.depth(), 64);
    assert_eq!(Interleave::Long.pattern()[63], 0);
    assert_eq!(Interleave::Short.pattern()[3], 7);
}

#[test]
fn variant_labels_round_trip() {
    for &v in NavtexVariant::all() {
        assert_eq!(NavtexVariant::from_label(v.label()), Some(v));
    }
    assert_eq!(NavtexVariant::from_label("bogus"), None);
}

#[test]
fn fsq_labels_round_trip() {
    for &s in FsqSpeed::all() {
        assert_eq!(FsqSpeed::from_label(s.label()), Some(s));
    }
    assert_eq!(FsqSpeed::from_label("fsq"), Some(FsqSpeed::S3));
    assert_eq!(FsqSpeed::from_label("nope"), None);
}
