//! FSQ (FSQCALL): speeds, the CRC8 sender check and transmission framing.
//!
//! A directed transmission is framed `" " + FSQBOL + mycall + ":" +
//! crc8(mycall) + body + FSQEOT`; the receiver watches the decoded character
//! stream for those markers and parses each transmission with [`directed`].
use vstd::prelude::*;
use crate::text::{label_key, latin1, push_str, string_push};
use crate::fsq::directed::{
    callsign_class, cqcqcq_bytes, allcall_bytes, directed_outcome, header_call, heard_added,
    heard_sender, lead_char, lemma_directed_to_addressee, lemma_header_names_sender,
    no_tail_alias, parse_rx_text, trigger_byte, DirectedMessage, HeardList,
};
use vstd::utf8::{encode_utf8, is_ascii_chars, is_ascii_chars_encode_utf8};
use crate::text::lossy_decode;
use vstd::string::StringSliceAdditionalSpecFns;

pub mod directed;

verus! {

/// FSQBOL / FSQEOT / FSQEOL framing markers.
pub const FSQBOL: &'static str = " \n";
pub const FSQEOT: &'static str = "  \x08  ";
pub const FSQEOL: &'static str = "\n ";

/// The FSQ speed selector. Fixes only the emitted samples/symbol; tone spacing
/// is constant.
#[derive(Debug, Clone, Copy, PartialEq, Eq)]
pub enum FsqSpeed {
    S1_5,
    S2,
    S3,
    S4_5,
    S6,
}

/// The label naming a speed.
pub open spec fn speed_label(s: FsqSpeed) -> Seq<char> {
    match s {
        FsqSpeed::S1_5 => "fsq-1.5"@,
        FsqSpeed::S2 => "fsq-2"@,
        FsqSpeed::S3 => "fsq-3"@,
        FsqSpeed::S4_5 => "fsq-4.5"@,
        FsqSpeed::S6 => "fsq-6"@,
    }
}

/// The speed a label names; `fsq` alone names the 3-baud default.
pub open spec fn speed_of_label(s: Seq<char>) -> Option<FsqSpeed> {
    if s == "fsq-1.5"@ {
        Some(FsqSpeed::S1_5)
    } else if s == "fsq-2"@ {
        Some(FsqSpeed::S2)
    } else if s == "fsq"@ || s == "fsq-3"@ {
        Some(FsqSpeed::S3)
    } else if s == "fsq-4.5"@ {
        Some(FsqSpeed::S4_5)
    } else if s == "fsq-6"@ {
        Some(FsqSpeed::S6)
    } else {
        None
    }
}

impl FsqSpeed {
    /// Emitted samples per symbol.
    pub fn symlen(self) -> (r: usize)
        ensures
            r == match self {
                FsqSpeed::S1_5 => 8192usize,
                FsqSpeed::S2 => 6144usize,
                FsqSpeed::S3 => 4096usize,
                FsqSpeed::S4_5 => 3072usize,
                FsqSpeed::S6 => 2048usize,
            },
    {
        match self {
            FsqSpeed::S1_5 => 8192,
            FsqSpeed::S2 => 6144,
            FsqSpeed::S3 => 4096,
            FsqSpeed::S4_5 => 3072,
            FsqSpeed::S6 => 2048,
        }
    }

    pub fn from_label(s: &str) -> (r: Option<FsqSpeed>)
        ensures
            r == speed_of_label(s@),
    {
        if crate::text::str_eq(s, "fsq-1.5") {
            Some(FsqSpeed::S1_5)
        } else if crate::text::str_eq(s, "fsq-2") {
            Some(FsqSpeed::S2)
        } else if crate::text::str_eq(s, "fsq") || crate::text::str_eq(s, "fsq-3") {
            Some(FsqSpeed::S3)
        } else if crate::text::str_eq(s, "fsq-4.5") {
            Some(FsqSpeed::S4_5)
        } else if crate::text::str_eq(s, "fsq-6") {
            Some(FsqSpeed::S6)
        } else {
            None
        }
    }

    pub fn label(self) -> (r: &'static str)
        ensures
            r@ == speed_label(self),
    {
        match self {
            FsqSpeed::S1_5 => "fsq-1.5",
            FsqSpeed::S2 => "fsq-2",
            FsqSpeed::S3 => "fsq-3",
            FsqSpeed::S4_5 => "fsq-4.5",
            FsqSpeed::S6 => "fsq-6",
        }
    }

    pub fn all() -> (r: &'static [FsqSpeed])
        ensures
            r@ == seq![FsqSpeed::S1_5, FsqSpeed::S2, FsqSpeed::S3, FsqSpeed::S4_5, FsqSpeed::S6],
    {
        &[FsqSpeed::S1_5, FsqSpeed::S2, FsqSpeed::S3, FsqSpeed::S4_5, FsqSpeed::S6]
    }
}

/// Every speed's label parses back to that speed.
pub proof fn lemma_speed_labels_round_trip(s: FsqSpeed)
    ensures
        speed_of_label(speed_label(s)) == Some(s),
{
    reveal_strlit("fsq-1.5");
    reveal_strlit("fsq-2");
    reveal_strlit("fsq");
    reveal_strlit("fsq-3");
    reveal_strlit("fsq-4.5");
    reveal_strlit("fsq-6");
    assert(label_key("fsq-1.5"@) == (7int, 'f', '5', '.', '1', '-', 'q'));
    assert(label_key("fsq-2"@) == (5int, 'f', '2', '-', 'q', 's', 'f'));
    assert(label_key("fsq-3"@) == (5int, 'f', '3', '-', 'q', 's', 'f'));
    assert(label_key("fsq-4.5"@) == (7int, 'f', '5', '.', '4', '-', 'q'));
    assert(label_key("fsq-6"@) == (5int, 'f', '6', '-', 'q', 's', 'f'));
    assert(label_key("fsq"@) == (3int, 'f', 'q', 's', 'f', 'f', 'f'));
}

/// One CRC-8 division step (generator `x^8 + x^2 + x + 1`).
pub open spec fn crc8_shift(c: u8) -> u8 {
    if c & 0x80u8 != 0 {
        (c << 1u8) ^ 0x07u8
    } else {
        c << 1u8
    }
}

/// The CRC-8 register after taking in byte `b`.
pub open spec fn crc8_step(c: u8, b: u8) -> u8 {
    crc8_shift(crc8_shift(crc8_shift(crc8_shift(crc8_shift(crc8_shift(crc8_shift(crc8_shift(
        c ^ b,
    ))))))))
}

/// The FSQ CRC-8 of `s` (generator 0x07, zero initial value, bytes first to
/// last, each most significant bit first).
pub open spec fn crc8(s: Seq<u8>) -> u8
    decreases s.len(),
{
    if s.len() == 0 {
        0
    } else {
        crc8_step(crc8(s.drop_last()), s.last())
    }
}

/// Lower-case hexadecimal digit for a nibble.
pub open spec fn hex_digit(n: u8) -> u8 {
    if n < 10 {
        (48 + n) as u8
    } else {
        (87 + n) as u8
    }
}

/// The two lower-case hex digits of the CRC-8 of `s`, as sent after the
/// sender call.
pub open spec fn crc8_hex(s: Seq<u8>) -> Seq<u8> {
    seq![hex_digit(crc8(s) >> 4u8), hex_digit(crc8(s) & 15u8)]
}

fn crc8_bytes(s: &[u8]) -> (r: u8)
    ensures
        r == crc8(s@),
{
    let mut c: u8 = 0;
    for k in 0..s.len()
        invariant
            c == crc8(s@.take(k as int)),
    {
        let ghost c0 = c ^ s[k as int];
        c = c ^ s[k];
        let mut j: u8 = 0;
        while j < 8
            invariant
                j <= 8,
                j == 0 ==> c == c0,
                j == 1 ==> c == crc8_shift(c0),
                j == 2 ==> c == crc8_shift(crc8_shift(c0)),
                j == 3 ==> c == crc8_shift(crc8_shift(crc8_shift(c0))),
                j == 4 ==> c == crc8_shift(crc8_shift(crc8_shift(crc8_shift(c0)))),
                j == 5 ==> c == crc8_shift(crc8_shift(crc8_shift(crc8_shift(crc8_shift(c0))))),
                j == 6 ==> c == crc8_shift(crc8_shift(crc8_shift(crc8_shift(crc8_shift(crc8_shift(c0)))))),
                j == 7 ==> c == crc8_shift(crc8_shift(crc8_shift(crc8_shift(crc8_shift(crc8_shift(crc8_shift(c0))))))),
                j == 8 ==> c == crc8_shift(crc8_shift(crc8_shift(crc8_shift(crc8_shift(crc8_shift(crc8_shift(crc8_shift(c0)))))))),
            decreases 8 - j,
        {
            if c & 0x80 != 0 {
                c = (c << 1u8) ^ 0x07;
            } else {
                c = c << 1u8;
            }
            j = j + 1;
        }
        assert(s@.take(k + 1).drop_last() =~= s@.take(k as int));
    }
    assert(s@.take(s.len() as int) =~= s@);
    c
}

proof fn lemma_nibbles(c: u8)
    ensures
        c >> 4u8 < 16,
        c & 15u8 < 16,
{
    assert(c >> 4u8 < 16 && c & 15u8 < 16) by (bit_vector);
}

fn hex_digit_exec(n: u8) -> (r: u8)
    requires
        n < 16,
    ensures
        r == hex_digit(n),
{
    if n < 10 {
        48 + n
    } else {
        87 + n
    }
}

/// The CRC-8 check digits of `s` as two lower-case hex bytes.
pub fn crc8_hex_bytes(s: &[u8]) -> (r: [u8; 2])
    ensures
        r@ == crc8_hex(s@),
{
    let c = crc8_bytes(s);
    proof {
        lemma_nibbles(c);
    }
    let r = [hex_digit_exec(c >> 4u8), hex_digit_exec(c & 15)];
    assert(r@ =~= crc8_hex(s@));
    r
}

/// The on-air transmission string for `body` from `mycall`: `" "`, FSQBOL, the
/// call, `:`, the call's CRC-8 digits (directed only), the body, then FSQEOT
/// (directed) or FSQEOL.
pub open spec fn tx_string(mycall: &str, body: Seq<char>, directed: bool) -> Seq<char> {
    let hex = crc8_hex(mycall.spec_bytes());
    seq![' '] + " \n"@ + mycall@ + seq![':'] + (if directed {
        seq![hex[0] as char, hex[1] as char]
    } else {
        Seq::empty()
    }) + body + (if directed { "  \x08  "@ } else { "\n "@ })
}

/// Assemble the on-air transmission string. `directed` appends the CRC8(mycall)
/// header and uses the `FSQEOT` trailer; the non-directed form omits the CRC
/// and uses `FSQEOL`.
pub fn build_tx(mycall: &str, body: &str, directed: bool) -> (s: String)
    ensures
        s@ == tx_string(mycall, body@, directed),
{
    let mut s = String::new();
    string_push(&mut s, ' ');
    push_str(&mut s, FSQBOL);
    push_str(&mut s, mycall);
    string_push(&mut s, ':');
    let ghost hdr = s@;
    if directed {
        let hex = crc8_hex_bytes(mycall.as_bytes());
        string_push(&mut s, hex[0] as char);
        string_push(&mut s, hex[1] as char);
    }
    push_str(&mut s, body);
    push_str(&mut s, if directed { FSQEOT } else { FSQEOL });
    proof {
        let hex = crc8_hex(mycall.spec_bytes());
        if directed {
            assert(s@ =~= tx_string(mycall, body@, directed));
        } else {
            assert(s@ =~= tx_string(mycall, body@, directed));
        }
    }
    s
}


proof fn lemma_tx_bytes(mycall: &str, body: Seq<char>)
    requires
        is_ascii_chars(mycall@),
        is_ascii_chars(body),
    ensures
        encode_utf8(tx_string(mycall, body, true)) == seq![32u8, 32, 10] + mycall.spec_bytes()
            + seq![58u8] + crc8_hex(mycall.spec_bytes()) + (encode_utf8(body) + seq![
            32u8,
            32,
            8,
            32,
            32,
        ]),
{
    reveal_strlit(" \n");
    reveal_strlit("  \x08  ");
    let c = mycall.spec_bytes();
    let hex = crc8_hex(c);
    let tx = tx_string(mycall, body, true);
    let n = mycall@.len() as int;
    is_ascii_chars_encode_utf8(mycall@);
    is_ascii_chars_encode_utf8(body);
    lemma_nibbles(crc8(c));
    assert(hex[0] < 128 && hex[1] < 128);
    assert(is_ascii_chars(tx)) by {
        assert forall|i: int| 0 <= i < tx.len() implies '\0' <= #[trigger] tx[i] <= '\u{7f}' by {
            if 3 <= i < 3 + n {
                assert(tx[i] == mycall@[i - 3]);
            } else if 6 + n <= i < 6 + n + body.len() {
                assert(tx[i] == body[i - 6 - n]);
            }
        }
    }
    is_ascii_chars_encode_utf8(tx);
    let want = seq![32u8, 32, 10] + c + seq![58u8] + hex + (encode_utf8(body) + seq![
        32u8,
        32,
        8,
        32,
        32,
    ]);
    assert forall|i: int| 0 <= i < tx.len() implies #[trigger] encode_utf8(tx)[i] == want[i] by {
        if 3 <= i < 3 + n {
            assert(tx[i] == mycall@[i - 3]);
        } else if 6 + n <= i < 6 + n + body.len() {
            assert(tx[i] == body[i - 6 - n]);
        }
    }
    assert(encode_utf8(tx) =~= want);
}

/// A directed transmission reaches its addressee: when the body of a
/// [`build_tx`] frame from `mycall` opens with the receiver's call `rcv`
/// (followed by a trigger, or by nothing), parsing the frame's bytes for
/// `rcv` hears `mycall` and yields a message from `mycall` marked as sent to
/// `rcv`. This holds for ASCII text, a sender call fit for the header that is
/// a call other than `rcv` and has no shorter tail passing for it, and a
/// receiver call of 3 to 20 bytes, neither `allcall` nor `cqcqcq`, with no
/// trigger byte in it.
pub proof fn lemma_build_tx_reaches_addressee(mycall: &str, body: Seq<char>, rcv: Seq<u8>)
    requires
        is_ascii_chars(mycall@),
        is_ascii_chars(body),
        header_call(mycall.spec_bytes()),
        callsign_class(mycall.spec_bytes(), rcv) != 0,
        no_tail_alias(mycall.spec_bytes(), rcv),
        mycall.spec_bytes() != rcv,
        3 <= rcv.len() <= 20,
        rcv != allcall_bytes(),
        rcv != cqcqcq_bytes(),
        forall|k: int| 0 <= k < rcv.len() ==> !trigger_byte(#[trigger] rcv[k]),
        encode_utf8(body).len() >= rcv.len(),
        encode_utf8(body).subrange(0, rcv.len() as int) == rcv,
        encode_utf8(body).len() > rcv.len() ==> trigger_byte(encode_utf8(body)[rcv.len() as int]),
    ensures
        heard_sender(encode_utf8(tx_string(mycall, body, true)), rcv) == Some(mycall.spec_bytes()),
        directed_outcome(encode_utf8(tx_string(mycall, body, true)), rcv) matches Some(o) && o.0
            == mycall.spec_bytes() && o.1,
{
    let c = mycall.spec_bytes();
    let pre = seq![32u8, 32, 10];
    let bb = encode_utf8(body);
    let rest = bb + seq![32u8, 32, 8, 32, 32];
    lemma_tx_bytes(mycall, body);
    assert(pre.last() == 10);
    assert(rest.subrange(0, rcv.len() as int) =~= bb.subrange(0, rcv.len() as int));
    assert(trigger_byte(rest[rcv.len() as int])) by {
        if bb.len() > rcv.len() {
            assert(rest[rcv.len() as int] == bb[rcv.len() as int]);
        } else {
            assert(rest[rcv.len() as int] == 32);
        }
    }
    lemma_header_names_sender(pre, c, rest, rcv);
    lemma_directed_to_addressee(pre, c, rest, rcv);
}

// ---- receive side: markers and directed parsing of the character stream ----

/// The rolling three-character marker window after `ch` arrives.
pub open spec fn marker_after(m: Seq<u8>, ch: u8) -> Seq<u8> {
    let m1 = m.push(ch);
    if m1.len() > 3 {
        m1.drop_first()
    } else {
        m1
    }
}

/// The window ends a transmission: the first three characters of `FSQEOT`
/// (space, space, backspace).
pub open spec fn eot_window(m: Seq<u8>) -> bool {
    m.len() == 3 && m[0] == 32 && m[1] == 32 && m[2] == 8
}

/// The window begins a line: `FSQBOL` (space, line feed) as its last two
/// characters.
pub open spec fn bol_window(m: Seq<u8>) -> bool {
    m.len() >= 2 && m[m.len() - 2] == 32 && m[m.len() - 1] == 10
}

/// What a parsed message holds when [`directed_outcome`] of its text is
/// `o`.
pub open spec fn message_of(
    m: DirectedMessage,
    o: (Seq<u8>, bool, bool, Seq<u8>),
) -> bool {
    &&& m.from@ == latin1(o.0)
    &&& m.crc_ok
    &&& m.to_me == o.1
    &&& m.to_all == o.2
    &&& m.trigger == lead_char(o.3)
    &&& m.payload@ == lossy_decode(o.3)
    &&& vstd::utf8::valid_utf8(o.3) ==> m.payload@ == vstd::utf8::decode_utf8(o.3)
}

/// The text side of the FSQ receiver. Every decoded character extends the
/// pending transmission (restarted at each begin-of-line marker); at each
/// end-of-transmission marker the pending text is parsed as a directed
/// message for `mycall`, its CRC-checked sender is added to the heard list,
/// and a message addressed to us or to everybody is queued.
pub struct FsqDirectedRx {
    rx_text: String,
    marker: Vec<u8>,
    mycall: String,
    heard: HeardList,
    parsed: Vec<DirectedMessage>,
}

impl FsqDirectedRx {
    /// The transmission received since the last marker.
    pub closed spec fn pending(&self) -> Seq<char> {
        self.rx_text@
    }

    /// The last (up to) three characters received.
    pub closed spec fn marker(&self) -> Seq<u8> {
        self.marker@
    }

    /// Our callsign.
    pub closed spec fn mycall(&self) -> Seq<char> {
        self.mycall@
    }

    /// The stations heard so far.
    pub closed spec fn heard_view(&self) -> Seq<(Seq<char>, Option<Seq<char>>)> {
        self.heard@
    }

    /// The directed messages parsed and not yet taken.
    pub closed spec fn parsed(&self) -> Seq<DirectedMessage> {
        self.parsed@
    }

    pub fn new(mycall: &str) -> (rx: Self)
        ensures
            rx.pending() == Seq::<char>::empty(),
            rx.marker() == Seq::<u8>::empty(),
            rx.mycall() == mycall@,
            rx.heard_view() == Seq::<(Seq<char>, Option<Seq<char>>)>::empty(),
            rx.parsed() == Seq::<DirectedMessage>::empty(),
    {
        let mut call = String::new();
        push_str(&mut call, mycall);
        FsqDirectedRx {
            rx_text: String::new(),
            marker: Vec::new(),
            mycall: call,
            heard: HeardList::new(),
            parsed: Vec::new(),
        }
    }

    /// Drain and return the directed messages parsed since the last call.
    pub fn take_directed(&mut self) -> (r: Vec<DirectedMessage>)
        ensures
            r@ == old(self).parsed(),
            final(self).parsed() == Seq::<DirectedMessage>::empty(),
            final(self).pending() == old(self).pending(),
            final(self).marker() == old(self).marker(),
            final(self).mycall() == old(self).mycall(),
            final(self).heard_view() == old(self).heard_view(),
    {
        let mut r: Vec<DirectedMessage> = Vec::new();
        std::mem::swap(&mut r, &mut self.parsed);
        r
    }

    /// The stations heard so far.
    pub fn heard(&self) -> (r: &HeardList)
        ensures
            r@ == self.heard_view(),
    {
        &self.heard
    }

    /// Take one decoded character.
    pub fn on_char(&mut self, ch: u8)
        ensures
            ({
                let m = marker_after(old(self).marker(), ch);
                let text = (if bol_window(m) {
                    Seq::<char>::empty()
                } else {
                    old(self).pending()
                }).push(ch as char);
                let b = vstd::utf8::encode_utf8(text);
                let my = vstd::utf8::encode_utf8(old(self).mycall());
                let n = old(self).parsed().len();
                &&& final(self).marker() == m
                &&& final(self).mycall() == old(self).mycall()
                &&& !eot_window(m) ==> final(self).pending() == text && final(self).heard_view()
                    == old(self).heard_view() && final(self).parsed() == old(self).parsed()
                &&& eot_window(m) ==> final(self).pending() == Seq::<char>::empty()
                    && final(self).heard_view() == match heard_sender(b, my) {
                    Some(s) => heard_added(old(self).heard_view(), latin1(s), None),
                    None => old(self).heard_view(),
                } && match directed_outcome(b, my) {
                    None => final(self).parsed() == old(self).parsed(),
                    Some(o) => final(self).parsed().len() == n + 1 && final(self).parsed().take(
                        n as int,
                    ) == old(self).parsed() && message_of(final(self).parsed()[n as int], o),
                }
            }),
    {
        self.marker.push(ch);
        if self.marker.len() > 3 {
            self.marker.remove(0);
        }
        let n = self.marker.len();
        let eot = n == 3 && self.marker[0] == 32 && self.marker[1] == 32 && self.marker[2] == 8;
        let bol = n >= 2 && self.marker[n - 2] == 32 && self.marker[n - 1] == 10;
        if bol {
            self.rx_text = String::new();
        }
        string_push(&mut self.rx_text, ch as char);
        if eot {
            let ghost p0 = self.parsed@;
            let r = parse_rx_text(self.rx_text.as_str(), self.mycall.as_str(), &mut self.heard);
            if let Some(msg) = r {
                self.parsed.push(msg);
                assert(self.parsed@.take(p0.len() as int) =~= p0);
            }
            self.rx_text = String::new();
        }
    }
}

} // verus!
