use omnimodem_dsp::modulate::DiffPsk;
use omnimodem_dsp::olivia::{char_to_symbol, chips_per_symbol, symbol_to_char, symbols_per_char, CHARSET};
use omnimodem_dsp::osc::Oscillator;

#[test]
fn diff_psk_round_trip() {
    let d = DiffPsk::new(2);
    let bits = [0u32, 1, 3, 2, 1, 0, 3, 3];
    let enc = d.diff_encode(&bits);
    assert_eq!(enc, vec![0, 1, 0, 2, 3, 3, 2, 1]);
    let dec = d.diff_decode(&enc);
    assert_eq!(dec, bits);
}

#[test]
fn diff_bpsk_round_trip() {
    let d = DiffPsk::new(1);
    let bits = [1u32, 1, 0, 1, 0, 0, 1];
    let enc = d.diff_encode(&bits);
    assert_eq!(enc, vec![1, 0, 0, 1, 1, 1, 0]);
    let dec = d.diff_decode(&enc);
    assert_eq!(dec, bits);
}

#[test]
fn diff_decode_wraps_and_reduces_large_symbols() {
    let d = DiffPsk::new(2);
    assert_eq!(d.diff_decode(&[3, 0, 2]), vec![3, 1, 2]);
    // Symbols at or above the phase count come back reduced.
    let enc = d.diff_encode(&[5, 6, 1000]);
    assert_eq!(enc, vec![1, 3, 3]);
    assert_eq!(d.diff_decode(&enc), vec![1, 2, 0]);
    assert!(d.diff_encode(&[]).is_empty());
}

#[test]
fn oscillator_one_cycle_returns_to_the_origin() {
    // 1 Hz at 256 Hz: a step of 2^24, exactly 256 samples per cycle.
    let mut o = Oscillator::with_step(1 << 24);
    for k in 0..256usize {
        assert_eq!(o.next_index(), k);
    }
    assert_eq!(o.next_index(), 0);
}

#[test]
fn oscillator_quarter_cycle_and_retune() {
    let mut o = Oscillator::with_step(1 << 24);
    for _ in 0..64 {
        o.next_index();
    }
    assert_eq!(o.next_index(), 64);
    o.set_step(3 << 23);
    assert_eq!(o.step(), 3 << 23);
    assert_eq!(o.next_index(), 65);
    assert_eq!(o.next_index(), 66);
    assert_eq!(o.next_index(), 68);
    // The accumulator wraps without drift.
    let mut w = Oscillator::with_step(u32::MAX);
    assert_eq!(w.next_index(), 0);
    assert_eq!(w.next_index(), 255);
    assert_eq!(w.next_index(), 255);
}

#[test]
fn olivia_charset_round_trips() {
    assert_eq!(char_to_symbol(b' '), 0);
    assert_eq!(char_to_symbol(b'A'), 1);
    assert_eq!(char_to_symbol(b'a'), 27);
    assert_eq!(char_to_symbol(b'.'), 63);
    assert_eq!(char_to_symbol(b'#'), 0);
    assert_eq!(symbol_to_char(27), 'a');
    assert_eq!(symbol_to_char(64 + 1), 'A');
    for &c in CHARSET.iter() {
        assert_eq!(symbol_to_char(char_to_symbol(c)), c as char);
    }
}

#[test]
fn olivia_symbols_per_char() {
    assert_eq!(chips_per_symbol(32), 5);
    assert_eq!(symbols_per_char(32), 13);
    assert_eq!(symbols_per_char(8), 22);
    assert_eq!(symbols_per_char(4), 32);
    assert_eq!(symbols_per_char(2), 64);
    assert_eq!(symbols_per_char(16), 16);
    assert_eq!(symbols_per_char(64), 11);
    assert_eq!(symbols_per_char(0), 2);
}
