use omnimodem_dsp::rsid::{encode, RsidMatcher, NBINS, NTIMES};

/// The ring rows a clean burst of `code` at `bin` leaves: symbol `i` at odd
/// row `2i + 1`, with the symbols listed in `corrupt` bumped by one slot.
fn burst_rows(code: u16, bin: usize, corrupt: &[usize]) -> Vec<Vec<u8>> {
    let sy = encode(code);
    let mut rows = vec![vec![0u8; NBINS]; NTIMES];
    for i in 0..15 {
        rows[2 * i + 1][bin] = sy[i];
    }
    for &c in corrupt {
        rows[2 * c + 1][bin] = (sy[c] + 1) % 16;
    }
    rows
}

/// Push every row; return the hits with the index of the push that made them.
fn feed(m: &mut RsidMatcher, rows: Vec<Vec<u8>>) -> Vec<(usize, (&'static str, usize, bool))> {
    let mut hits = Vec::new();
    for (t, row) in rows.into_iter().enumerate() {
        if let Some(h) = m.push_row(row) {
            hits.push((t, (h.entry.tag, h.bin, h.extended)));
        }
    }
    hits
}

#[test]
fn matcher_reports_a_primary_burst_once_the_ring_is_full() {
    let mut m = RsidMatcher::new(1);
    let hits = feed(&mut m, burst_rows(1, 100, &[]));
    assert_eq!(hits, vec![(29, ("BPSK31", 100, false))]);
    // The ring was cleared: the same rows again need a full refill.
    let again = feed(&mut m, vec![vec![0u8; NBINS]; 5]);
    assert!(again.is_empty());
}

#[test]
fn matcher_resolution_bounds_the_accepted_mismatches() {
    let mut m1 = RsidMatcher::new(1);
    assert_eq!(feed(&mut m1, burst_rows(110, 500, &[3])), vec![(29, ("QPSK31", 500, false))]);
    let mut m0 = RsidMatcher::new(0);
    assert!(feed(&mut m0, burst_rows(110, 500, &[3])).is_empty());
    let mut r1 = RsidMatcher::new(1);
    assert!(feed(&mut r1, burst_rows(4, 700, &[0, 14])).is_empty());
    let mut r2 = RsidMatcher::new(2);
    assert_eq!(feed(&mut r2, burst_rows(4, 700, &[0, 14])), vec![(29, ("BPSK125", 700, false))]);
    // Resolutions above 2 act as 2.
    let mut r5 = RsidMatcher::new(5);
    assert_eq!(feed(&mut r5, burst_rows(4, 700, &[0, 14])), vec![(29, ("BPSK125", 700, false))]);
}

#[test]
fn matcher_escape_opens_the_extended_table() {
    let mut m = RsidMatcher::new(1);
    assert!(feed(&mut m, burst_rows(6, 300, &[])).is_empty());
    let hits = feed(&mut m, burst_rows(450, 300, &[]));
    assert_eq!(hits, vec![(29, ("PSK63RX4", 300, true))]);
}

#[test]
fn matcher_extended_window_times_out() {
    let mut m = RsidMatcher::new(1);
    assert!(feed(&mut m, burst_rows(6, 300, &[])).is_empty());
    assert!(feed(&mut m, vec![vec![0u8; NBINS]; 54]).is_empty());
    // Back on the primary table, an extended code is not recognised.
    assert!(feed(&mut m, burst_rows(450, 300, &[])).is_empty());
    // Without the ESCAPE it never was.
    let mut fresh = RsidMatcher::new(1);
    assert!(feed(&mut fresh, burst_rows(450, 300, &[])).is_empty());
}

#[test]
fn matcher_silence_matches_nothing() {
    let mut m = RsidMatcher::new(2);
    assert!(feed(&mut m, vec![vec![0u8; NBINS]; 40]).is_empty());
    m.clear_ring();
    assert_eq!(feed(&mut m, burst_rows(263, 961 - 1, &[])), vec![(29, ("EOT", 960, false))]);
}
