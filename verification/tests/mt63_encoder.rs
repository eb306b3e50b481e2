use omnimodem_dsp::ofdm::{tx_phase_indices, Interleave, Mt63Encoder, Mt63Geometry};

fn ones(bits: &[u8; 64]) -> Vec<usize> {
    (0..64).filter(|&i| bits[i] != 0).collect()
}

#[test]
fn short_encoder_outputs_match_the_reference() {
    let mut e = Mt63Encoder::new(Interleave::Short);
    let a = e.process(b'A');
    assert_eq!(ones(&a), vec![41]);
    assert_eq!(e.output, a);
    let b = e.process(0x55);
    assert_eq!(ones(&b), vec![35, 41]);
}

#[test]
fn long_encoder_drains_the_zero_pipe() {
    let mut e = Mt63Encoder::new(Interleave::Long);
    let mut outs = Vec::new();
    for &c in b"HELLO WORLD" {
        outs.push(e.process(c));
    }
    assert!(outs[0].iter().all(|&b| b == 0));
    assert_eq!(ones(&outs[10]), vec![10, 15, 19, 22, 46]);
}

#[test]
fn code_bit_seven_is_ignored() {
    let mut e1 = Mt63Encoder::new(Interleave::Short);
    let mut e2 = Mt63Encoder::new(Interleave::Short);
    for &c in b"MT63 test" {
        assert_eq!(e1.process(c), e2.process(c | 0x80));
    }
}

#[test]
fn tx_phase_indices_long_interleave() {
    let geo = Mt63Geometry { bandwidth: 1000, decimate: 4, first_data_carr: 256 };
    let r = tx_phase_indices(&geo, Interleave::Long, b"CQ");
    assert_eq!(r.len(), 2);
    assert_eq!(r[0][..8], [0, 33, 323, 102, 394, 175, 469, 252]);
    assert_eq!(r[1][..8], [0, 65, 131, 198, 266, 335, 405, 476]);
    assert_eq!(r[1][60..], [38, 163, 289, 416]);
}

#[test]
fn tx_phase_indices_negative_first_carrier() {
    let geo = Mt63Geometry { bandwidth: 500, decimate: 8, first_data_carr: -3 };
    let r = tx_phase_indices(&geo, Interleave::Short, &[0x00, 0x7f, 0xff]);
    assert_eq!(r.len(), 3);
    assert_eq!(r[0][..8], [168, 457, 235, 14, 306, 87, 381, 164]);
    assert_eq!(r[2][..8], [504, 345, 187, 30, 386, 231, 333, 436]);
    assert_eq!(r[2][56..], [308, 205, 103, 2, 414, 315, 217, 120]);
    assert!(r.iter().all(|v| v.iter().all(|&p| (0..512).contains(&p))));
}

#[test]
fn tx_phase_indices_of_nothing_is_empty() {
    let geo = Mt63Geometry { bandwidth: 2000, decimate: 2, first_data_carr: 64 };
    assert!(tx_phase_indices(&geo, Interleave::Short, &[]).is_empty());
}

/// The message the reference dump encodes.
const MSG: &str = "CQ CQ DE K1ABC K1ABC/7 --.,?!";

fn geometry(bandwidth: u32) -> Mt63Geometry {
    // First data carrier for a 1500 Hz centre: floor((1500 - bw/2) * k / 500 + 0.5).
    match bandwidth {
        500 => Mt63Geometry { bandwidth, decimate: 8, first_data_carr: 640 },
        1000 => Mt63Geometry { bandwidth, decimate: 4, first_data_carr: 256 },
        _ => Mt63Geometry { bandwidth, decimate: 2, first_data_carr: 64 },
    }
}

fn bit_row(s: &str) -> [u8; 64] {
    let mut out = [0u8; 64];
    for (i, c) in s.bytes().enumerate() {
        out[i] = c - b'0';
    }
    out
}

const ENC_500S: [&str; 29] = [
    "1000000000000000000000000000000000000000000000000000000000000000",
    "1000000000000000000000000000000000010000000000000000000000000000",
    "1000001000000000000000000000000000000000000000000000100000000000",
    "1000001000000000000000010000010000000000000000000000000000000000",
    "1000000000000000000000010000010000010000100000000000000000000000",
    "1000001000010000010000010000000000000000100000000000100000000000",
    "0000001000000000010000010000110000000000000000100000000000000000",
    "1000001000010000000000010000010000000000100000000000000000000001",
    "1000010000010000110000010000110000100000100000000000100000000001",
    "0000001000000000010000010000110000000000000000100001000001000000",
    "1000101000010000100000010000010000000000010000000001000000100001",
    "0000111000000000100000110000100000110001110000100000000000000001",
    "0000110000100000010000000000110000010000000000000001100011000000",
    "1000111000110000110000010001010000010000100000000001000000100001",
    "1000110000010000010000110001100000110001000010000000000000000001",
    "0000111000100001110001110001100000000000000010000000100010100000",
    "1000101000110000100001010001010010100000010001000000000000000001",
    "0001011000010001000000110001000010010001110011100000000000000000",
    "0000100001110001010011100001010000010011000010000000100000000001",
    "1001001000110000010001010000110010110000100000000000000111100111",
    "1001110010010001010011010000100010010000000011000001000100000001",
    "1000011011100001110011110011100001000011010101000101100010100000",
    "1001001010010011100001010001000001100001000000000011100110001101",
    "0000111010110011000011100001000111000011110010100000000100000010",
    "0010101011010001000011110011010100000001110100001110000000000101",
    "0011001010100010010101010101110100100000000000100010000111001111",
    "1000110000010011010110000111110100001010010001000001000100000001",
    "0010010111110011110100100011100101101001010011001011000010000000",
    "0011010010000101110101001101110101110101001000100001100010101000",
];
const ENC_1000S: [&str; 29] = [
    "1000000000000000000000000000000000000000000000000000000000000000",
    "1000000000000000000000000000000000010000000000000000000000000000",
    "1000001000000000000000000000000000000000000000000000100000000000",
    "1000001000000000000000010000010000000000000000000000000000000000",
    "1000000000000000000000010000010000010000100000000000000000000000",
    "1000001000010000010000010000000000000000100000000000100000000000",
    "0000001000000000010000010000110000000000000000100000000000000000",
    "1000001000010000000000010000010000000000100000000000000000000001",
    "1000010000010000110000010000110000100000100000000000100000000001",
    "0000001000000000010000010000110000000000000000100001000001000000",
    "1000101000010000100000010000010000000000010000000001000000100001",
    "0000111000000000100000110000100000110001110000100000000000000001",
    "0000110000100000010000000000110000010000000000000001100011000000",
    "1000111000110000110000010001010000010000100000000001000000100001",
    "1000110000010000010000110001100000110001000010000000000000000001",
    "0000111000100001110001110001100000000000000010000000100010100000",
    "1000101000110000100001010001010010100000010001000000000000000001",
    "0001011000010001000000110001000010010001110011100000000000000000",
    "0000100001110001010011100001010000010011000010000000100000000001",
    "1001001000110000010001010000110010110000100000000000000111100111",
    "1001110010010001010011010000100010010000000011000001000100000001",
    "1000011011100001110011110011100001000011010101000101100010100000",
    "1001001010010011100001010001000001100001000000000011100110001101",
    "0000111010110011000011100001000111000011110010100000000100000010",
    "0010101011010001000011110011010100000001110100001110000000000101",
    "0011001010100010010101010101110100100000000000100010000111001111",
    "1000110000010011010110000111110100001010010001000001000100000001",
    "0010010111110011110100100011100101101001010011001011000010000000",
    "0011010010000101110101001101110101110101001000100001100010101000",
];
const ENC_1000L: [&str; 29] = [
    "1000000000000000000000000000000000000000000000000000000000000000",
    "1000000000000000000000000000000000000000000000000000000000000000",
    "1000000000000000000100000000000000000000000000000000000000000000",
    "1000000000000000000100000000000000000000000000000000000000000000",
    "1000000000000000000100000000000000000000000000000000000010000000",
    "1000000000000000000100100000000000000000000000000000000000000000",
    "0000000000000000000100000001000000000000000000000000000000000000",
    "1000000000000000000100000001000000000100000000000000000010000000",
    "1000000000000001000000100001000000000100000000100000000000000000",
    "0000000000000000000000100001000000000000000000000000000000000000",
    "1000000000100001000100000001000000010100000000000000000000000000",
    "0000000000100001000000100001000000000100000000100000000010000000",
    "0000000000000000000100100000000000000100100000000010000001000000",
    "1000000000100001000100000000000000010000100000100000000010000000",
    "1000000000100001000100000001010000000000000100000010000010000000",
    "0000000000000001000100100001010000000000100000000010000001000000",
    "1000000000100001000100000001000100000100100000000000000000000000",
    "0000000000100001000000100001010100000100000100000010000010000000",
    "0000000000000000000100100001010100000100000000000001000000000000",
    "1000000000100001000100000001010100000000100000100001000010000000",
    "1000000000000001000100001001010100010000000000000010000010000000",
    "1000000001100001000100100001010100010000100000000011000000000000",
    "1000000000000001000100001001000100010000000000000001000001010000",
    "0000000000100001001000101001010100010000000100000010000010010000",
    "0000000001000010000100000001010101000100000100010000000010100000",
    "0000000000100011000100101001000101000100100100100010000010010000",
    "1000000000000001001101100000000101010000000100000000000000011000",
    "0000000001100011000101101000010100010100100100110000000000100000",
    "0000000010000011001100001001000100010110000000000010000001000000",
];
const ENC_2000S: [&str; 29] = [
    "1000000000000000000000000000000000000000000000000000000000000000",
    "1000000000000000000000000000000000010000000000000000000000000000",
    "1000001000000000000000000000000000000000000000000000100000000000",
    "1000001000000000000000010000010000000000000000000000000000000000",
    "1000000000000000000000010000010000010000100000000000000000000000",
    "1000001000010000010000010000000000000000100000000000100000000000",
    "0000001000000000010000010000110000000000000000100000000000000000",
    "1000001000010000000000010000010000000000100000000000000000000001",
    "1000010000010000110000010000110000100000100000000000100000000001",
    "0000001000000000010000010000110000000000000000100001000001000000",
    "1000101000010000100000010000010000000000010000000001000000100001",
    "0000111000000000100000110000100000110001110000100000000000000001",
    "0000110000100000010000000000110000010000000000000001100011000000",
    "1000111000110000110000010001010000010000100000000001000000100001",
    "1000110000010000010000110001100000110001000010000000000000000001",
    "0000111000100001110001110001100000000000000010000000100010100000",
    "1000101000110000100001010001010010100000010001000000000000000001",
    "0001011000010001000000110001000010010001110011100000000000000000",
    "0000100001110001010011100001010000010011000010000000100000000001",
    "1001001000110000010001010000110010110000100000000000000111100111",
    "1001110010010001010011010000100010010000000011000001000100000001",
    "1000011011100001110011110011100001000011010101000101100010100000",
    "1001001010010011100001010001000001100001000000000011100110001101",
    "0000111010110011000011100001000111000011110010100000000100000010",
    "0010101011010001000011110011010100000001110100001110000000000101",
    "0011001010100010010101010101110100100000000000100010000111001111",
    "1000110000010011010110000111110100001010010001000001000100000001",
    "0010010111110011110100100011100101101001010011001011000010000000",
    "0011010010000101110101001101110101110101001000100001100010101000",
];

#[test]
fn encoder_matches_fldigi_vector() {
    let cases: [(Interleave, &[&str; 29]); 4] = [
        (Interleave::Short, &ENC_500S),
        (Interleave::Short, &ENC_1000S),
        (Interleave::Long, &ENC_1000L),
        (Interleave::Short, &ENC_2000S),
    ];
    for (intlv, want) in cases {
        let mut enc = Mt63Encoder::new(intlv);
        for (k, ch) in MSG.bytes().enumerate() {
            let got = enc.process(ch);
            assert_eq!(got, bit_row(want[k]), "encoder bits differ at char {k}");
        }
    }
}

#[test]
fn txvect_matches_fldigi_vector() {
    let chars: Vec<u8> = MSG.bytes().collect();
    {
        let got = tx_phase_indices(&geometry(500), Interleave::Short, &chars);
        assert_eq!(got.len(), 29);
        assert_eq!(got[0], [0, 33, 323, 102, 394, 175, 469, 252, 36, 333, 119, 418, 206, 507, 297, 88, 392, 185, 491, 286, 82, 391, 189, 500, 300, 101, 415, 218, 22, 339, 145, 464, 272, 81, 403, 214, 26, 351, 165, 492, 308, 125, 455, 274, 94, 427, 249, 72, 408, 233, 59, 398, 226, 55, 397, 228, 60, 405, 239, 74, 422, 259, 97, 448]);
        assert_eq!(got[28], [0, 417, 67, 230, 394, 303, 213, 124, 36, 205, 375, 34, 206, 123, 297, 472, 392, 57, 235, 414, 82, 7, 189, 116, 44, 229, 159, 346, 22, 211, 401, 80, 16, 209, 403, 86, 26, 479, 421, 108, 308, 253, 455, 402, 350, 299, 249, 200, 408, 105, 315, 14, 482, 439, 141, 356, 60, 277, 495, 202, 166, 131, 97, 64]);
        let weighted: i64 = got.iter().enumerate().map(|(n, row)| row.iter().enumerate().map(|(i, &v)| (n as i64 + 1) * (i as i64 + 1) * v as i64).sum::<i64>()).sum();
        assert_eq!(weighted, 230467312);
    }
    {
        let got = tx_phase_indices(&geometry(1000), Interleave::Short, &chars);
        assert_eq!(got.len(), 29);
        assert_eq!(got[0], [0, 33, 323, 102, 394, 175, 469, 252, 36, 333, 119, 418, 206, 507, 297, 88, 392, 185, 491, 286, 82, 391, 189, 500, 300, 101, 415, 218, 22, 339, 145, 464, 272, 81, 403, 214, 26, 351, 165, 492, 308, 125, 455, 274, 94, 427, 249, 72, 408, 233, 59, 398, 226, 55, 397, 228, 60, 405, 239, 74, 422, 259, 97, 448]);
        assert_eq!(got[28], [0, 417, 67, 230, 394, 303, 213, 124, 36, 205, 375, 34, 206, 123, 297, 472, 392, 57, 235, 414, 82, 7, 189, 116, 44, 229, 159, 346, 22, 211, 401, 80, 16, 209, 403, 86, 26, 479, 421, 108, 308, 253, 455, 402, 350, 299, 249, 200, 408, 105, 315, 14, 482, 439, 141, 356, 60, 277, 495, 202, 166, 131, 97, 64]);
        let weighted: i64 = got.iter().enumerate().map(|(n, row)| row.iter().enumerate().map(|(i, &v)| (n as i64 + 1) * (i as i64 + 1) * v as i64).sum::<i64>()).sum();
        assert_eq!(weighted, 230467312);
    }
    {
        let got = tx_phase_indices(&geometry(1000), Interleave::Long, &chars);
        assert_eq!(got.len(), 29);
        assert_eq!(got[0], [0, 33, 323, 102, 394, 175, 469, 252, 36, 333, 119, 418, 206, 507, 297, 88, 392, 185, 491, 286, 82, 391, 189, 500, 300, 101, 415, 218, 22, 339, 145, 464, 272, 81, 403, 214, 26, 351, 165, 492, 308, 125, 455, 274, 94, 427, 249, 72, 408, 233, 59, 398, 226, 55, 397, 228, 60, 405, 239, 74, 422, 259, 97, 448]);
        assert_eq!(got[28], [0, 417, 67, 230, 394, 47, 213, 380, 292, 461, 119, 34, 206, 379, 41, 472, 392, 57, 491, 414, 82, 263, 189, 116, 300, 485, 159, 90, 22, 211, 401, 336, 272, 209, 147, 86, 26, 223, 165, 108, 308, 509, 199, 146, 94, 299, 505, 200, 408, 105, 59, 14, 226, 439, 141, 356, 316, 277, 495, 202, 166, 131, 353, 64]);
        let weighted: i64 = got.iter().enumerate().map(|(n, row)| row.iter().enumerate().map(|(i, &v)| (n as i64 + 1) * (i as i64 + 1) * v as i64).sum::<i64>()).sum();
        assert_eq!(weighted, 227379184);
    }
    {
        let got = tx_phase_indices(&geometry(2000), Interleave::Short, &chars);
        assert_eq!(got.len(), 29);
        assert_eq!(got[0], [0, 33, 323, 102, 394, 175, 469, 252, 36, 333, 119, 418, 206, 507, 297, 88, 392, 185, 491, 286, 82, 391, 189, 500, 300, 101, 415, 218, 22, 339, 145, 464, 272, 81, 403, 214, 26, 351, 165, 492, 308, 125, 455, 274, 94, 427, 249, 72, 408, 233, 59, 398, 226, 55, 397, 228, 60, 405, 239, 74, 422, 259, 97, 448]);
        assert_eq!(got[28], [0, 417, 67, 230, 394, 303, 213, 124, 36, 205, 375, 34, 206, 123, 297, 472, 392, 57, 235, 414, 82, 7, 189, 116, 44, 229, 159, 346, 22, 211, 401, 80, 16, 209, 403, 86, 26, 479, 421, 108, 308, 253, 455, 402, 350, 299, 249, 200, 408, 105, 315, 14, 482, 439, 141, 356, 60, 277, 495, 202, 166, 131, 97, 64]);
        let weighted: i64 = got.iter().enumerate().map(|(n, row)| row.iter().enumerate().map(|(i, &v)| (n as i64 + 1) * (i as i64 + 1) * v as i64).sum::<i64>()).sum();
        assert_eq!(weighted, 230467312);
    }
}

#[test]
fn tx_phases_depend_only_on_characters_sent_so_far() {
    let geo = Mt63Geometry { bandwidth: 2000, decimate: 2, first_data_carr: 64 };
    let a = b"CQ CQ";
    let ab = b"CQ CQ de W1HKJ";
    for intlv in [Interleave::Short, Interleave::Long] {
        let ra = tx_phase_indices(&geo, intlv, a);
        let rab = tx_phase_indices(&geo, intlv, ab);
        assert_eq!(ra.len(), a.len());
        assert_eq!(&rab[..a.len()], &ra[..]);
        assert!(rab.iter().all(|v| v.iter().all(|&p| (0..512).contains(&p))));
    }
}
