use omnimodem_dsp::fsq::directed::{parse_rx_text, reply_for, valid_callsign, HeardList};
use omnimodem_dsp::fsq::{build_tx, crc8_hex_bytes, FsqSpeed};

#[test]
fn callsign_classification() {
    assert_eq!(valid_callsign("k1abc", "k1abc"), 1);
    assert_eq!(valid_callsign("w1hkj", "k1abc"), 8);
    assert_eq!(valid_callsign("allcall", "k1abc"), 2);
    assert_eq!(valid_callsign("cqcqcq", "k1abc"), 4);
    assert_eq!(valid_callsign("test", "k1abc"), 0);
    assert_eq!(valid_callsign("hi", "k1abc"), 0);
    assert_eq!(valid_callsign("ve3xyz/p", "k1abc"), 8);
    assert_eq!(valid_callsign("k1abc/7", "k1abc"), 8);
}

#[test]
fn callsign_regex_matches_fldigi_posix_regex() {
    for s in ["k1abc", "w1hkj", "ve3xyz/p", "n0call", "3a4b", "ab12cd"] {
        assert_eq!(valid_callsign(s, ""), 8, "{s:?} should be a callsign");
    }
    for s in ["999z", "1a1", "1234a", "test", "hello", "aa", "1234"] {
        assert_eq!(valid_callsign(s, ""), 0, "{s:?} should NOT be a callsign");
    }
}

#[test]
fn international_callsigns_match_fldigi() {
    let calls = [
        "DL1ABC", "G0XYZ", "M0ABC", "F5ABC", "EA1ABC", "OH2BH", "HB9ABC", "OE1ABC", "SP1ABC",
        "JA1ABC", "VK2ABC", "ZL1ABC", "PY2ABC", "LU1ABC", "VE3ABC", "VU2ABC", "ZS1ABC", "BV1ABC",
        "2E0ABC", "4X1ABC", "3DA0RS", "9A1ABC", "5B4ABC", "7Q7ABC", "8P6ABC", "3B8ABC", "9M2ABC",
        "4U1UN", "1A0KM", "RI1ANF", "KH6ABC", "VP8ABC", "K1ABC/P", "K1ABC/MM", "DL/K1ABC",
        "K1ABC/QRP", "ZS6/G0ABC", "VP2E/K1ABC", "EA9IB", "3Z0X", "OEM2O", "a1a",
    ];
    for s in calls {
        assert_eq!(valid_callsign(s, ""), 8, "{s:?} is a valid international call");
    }
}

#[test]
fn callsign_pattern_letter_digit_then_one_more() {
    // A letter (or '/') directly followed by a digit and one more letter, digit
    // or '/' anywhere in the word.
    assert_eq!(valid_callsign("a12", ""), 8);
    assert_eq!(valid_callsign("xx/9q", ""), 8);
    assert_eq!(valid_callsign("abcHeard1x", ""), 0);
    assert_eq!(valid_callsign("abcdefghijklmnopqrstuv1x", ""), 0);
}

#[test]
fn heard_list_dedups_and_orders() {
    let mut h = HeardList::new();
    h.add("w1hkj", Some("-5 db".into()));
    h.add("k1abc", None);
    h.add("w1hkj", Some("-3 db".into()));
    assert_eq!(h.entries().len(), 2);
    assert_eq!(h.entries()[0].call, "w1hkj");
    assert!(h.contains("k1abc"));
}

#[test]
fn heard_list_text_lines() {
    let mut h = HeardList::default();
    h.add("k1abc", None);
    h.add("w1hkj", Some("-3 db".into()));
    assert_eq!(h.list(), "w1hkj -3 db\nk1abc\n");
    assert_eq!(h.entries()[0].snr.as_deref(), Some("-3 db"));
    assert!(!h.contains("n0call"));
}

#[test]
fn parse_directed_message_to_me() {
    let mut heard = HeardList::new();
    let rx = "\nw1hkj:efk1abc test  \x08";
    let m = parse_rx_text(rx, "k1abc", &mut heard).expect("directed msg");
    assert_eq!(m.from, "w1hkj");
    assert!(m.crc_ok);
    assert!(m.to_me);
    assert!(!m.to_all);
    assert_eq!(m.trigger, ' ');
    assert_eq!(m.payload, " test");
    assert!(heard.contains("w1hkj"));
}

#[test]
fn parse_query_trigger_and_reply() {
    let mut heard = HeardList::new();
    let rx = "\nw1hkj:efk1abc?  \x08";
    let m = parse_rx_text(rx, "k1abc", &mut heard).expect("query");
    assert_eq!(m.trigger, '?');
    assert!(m.to_me);
    let reply = reply_for(&m, "-7 db", &heard).expect("reply");
    assert_eq!(reply, "w1hkj snr=-7 db");
}

#[test]
fn parse_allcall() {
    let mut heard = HeardList::new();
    let rx = "\nw1hkj:efallcall hello all  \x08";
    let m = parse_rx_text(rx, "k1abc", &mut heard).expect("allcall");
    assert!(m.to_all);
    assert!(!m.to_me);
    assert_eq!(m.from, "w1hkj");
}

#[test]
fn reject_bad_crc() {
    let mut heard = HeardList::new();
    assert!(parse_rx_text("\nw1hkj:00k1abc test  \x08", "k1abc", &mut heard).is_none());
    assert!(!heard.contains("w1hkj"));
}

#[test]
fn reject_own_echo() {
    let mut heard = HeardList::new();
    assert!(parse_rx_text("\nk1abc:f3w1hkj test  \x08", "k1abc", &mut heard).is_none());
}

#[test]
fn reject_unaddressed() {
    let mut heard = HeardList::new();
    assert!(parse_rx_text("\nw1hkj:efn0xyz test  \x08", "k1abc", &mut heard).is_none());
    assert!(heard.contains("w1hkj"));
}

#[test]
fn replies_for_ack_and_heard_and_none_for_text() {
    let mut heard = HeardList::new();
    let m = parse_rx_text("\nw1hkj:efk1abc*  \x08", "k1abc", &mut heard).expect("ack");
    assert_eq!(m.trigger, '*');
    assert_eq!(reply_for(&m, "x", &heard).as_deref(), Some("w1hkj ack"));
    let m = parse_rx_text("\nw1hkj:efk1abc$  \x08", "k1abc", &mut heard).expect("heard");
    assert_eq!(reply_for(&m, "x", &heard).as_deref(), Some("w1hkj Heard:\nw1hkj\n"));
    let m = parse_rx_text("\nw1hkj:efk1abc test  \x08", "k1abc", &mut heard).expect("text");
    assert_eq!(reply_for(&m, "x", &heard), None);
}

#[test]
fn parse_missing_header_is_none() {
    let mut heard = HeardList::new();
    assert!(parse_rx_text("", "k1abc", &mut heard).is_none());
    assert!(parse_rx_text("no colon here", "k1abc", &mut heard).is_none());
    assert!(parse_rx_text(":ef", "k1abc", &mut heard).is_none());
    assert!(heard.entries().is_empty());
}

#[test]
fn build_tx_matches_reference_directed_frame() {
    assert_eq!(build_tx("w1hkj", "k1abc test", true), "  \nw1hkj:efk1abc test  \x08  ");
}

#[test]
fn build_tx_plain_and_crc8() {
    assert_eq!(build_tx("w1hkj", "hello", false), "  \nw1hkj:hello\n ");
    assert_eq!(&crc8_hex_bytes(b"w1hkj"), b"ef");
    assert_eq!(&crc8_hex_bytes(b"k1abc"), b"f3");
}

#[test]
fn fsq_speed_labels_round_trip() {
    for &s in FsqSpeed::all() {
        assert_eq!(FsqSpeed::from_label(s.label()), Some(s));
    }
    assert_eq!(FsqSpeed::from_label("fsq"), Some(FsqSpeed::S3));
    assert_eq!(FsqSpeed::from_label("fsq-9"), None);
    assert_eq!(FsqSpeed::S1_5.symlen(), 8192);
    assert_eq!(FsqSpeed::S6.symlen(), 2048);
}

fn feed_rx(rx: &mut omnimodem_dsp::fsq::FsqDirectedRx, s: &str) {
    for &b in s.as_bytes() {
        rx.on_char(b);
    }
}

#[test]
fn receiver_parses_a_directed_transmission_at_eot() {
    let mut rx = omnimodem_dsp::fsq::FsqDirectedRx::new("k1abc");
    feed_rx(&mut rx, &build_tx("w1hkj", "k1abc test", true));
    let msgs = rx.take_directed();
    assert_eq!(msgs.len(), 1);
    assert_eq!(msgs[0].from, "w1hkj");
    assert!(msgs[0].crc_ok);
    assert!(msgs[0].to_me);
    assert!(!msgs[0].to_all);
    assert_eq!(msgs[0].trigger, ' ');
    assert_eq!(msgs[0].payload, " test");
    assert!(rx.heard().contains("w1hkj"));
    assert!(rx.take_directed().is_empty());
}

#[test]
fn receiver_queues_only_messages_for_us_but_hears_every_sender() {
    let mut rx = omnimodem_dsp::fsq::FsqDirectedRx::new("k1abc");
    feed_rx(&mut rx, "noise before the line");
    feed_rx(&mut rx, &build_tx("w1hkj", "n0xyz test", true));
    feed_rx(&mut rx, &build_tx("ve3xyz", "allcall hello all", true));
    feed_rx(&mut rx, &build_tx("k1abc", "w1hkj echo", true));
    let msgs = rx.take_directed();
    assert_eq!(msgs.len(), 1);
    assert_eq!(msgs[0].from, "ve3xyz");
    assert!(msgs[0].to_all);
    assert_eq!(msgs[0].payload, " hello all");
    let calls: Vec<&str> = rx.heard().entries().iter().map(|e| e.call.as_str()).collect();
    assert_eq!(calls, vec!["ve3xyz", "w1hkj"]);
}

#[test]
fn receiver_without_eot_parses_nothing() {
    let mut rx = omnimodem_dsp::fsq::FsqDirectedRx::new("k1abc");
    feed_rx(&mut rx, &build_tx("w1hkj", "k1abc test", false));
    assert!(rx.take_directed().is_empty());
    assert!(rx.heard().entries().is_empty());
}

#[test]
fn built_directed_frame_parses_for_its_addressee() {
    let mut heard = HeardList::new();
    let tx = build_tx("ve3xyz", "k1abc", true);
    let m = parse_rx_text(&tx, "k1abc", &mut heard).expect("addressed to k1abc");
    assert_eq!(m.from, "ve3xyz");
    assert!(m.to_me);
    assert!(!m.to_all);
    assert!(heard.contains("ve3xyz"));
    assert_eq!(heard.entries().len(), 1);
}
