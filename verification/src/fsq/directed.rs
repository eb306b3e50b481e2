//! FSQCALL directed-message protocol: the CRC8-keyed header, callsign
//! addressing, trigger classification, heard list and reply synthesis.
//!
//! A received transmission is `<from>:<crc><addressees><trigger><payload>`.
//! [`parse_rx_text`] verifies the CRC8 over the sender callsign, registers the
//! sender in the heard list, resolves whether we are addressed (our call,
//! `allcall` or `cqcqcq`) and returns the leading trigger and payload.
use vstd::prelude::*;
use super::{crc8_hex, crc8_hex_bytes};
use crate::text::{bytes_eq, copy_range, latin1, latin1_string, lossy_decode, push_str, str_eq,
    string_push, utf8_lossy};
use vstd::string::StringSliceAdditionalSpecFns;

verus! {

/// Trigger characters: space and `!#$%&'()*+,-.;<=>?@[\]^_{|}~`. A leading
/// space makes a plain-text directed message.
pub open spec fn trigger_byte(c: u8) -> bool {
    c == 32 || c == 33 || (35 <= c <= 46) || c == 59 || (60 <= c <= 64) || (91 <= c <= 95) || (123
        <= c <= 126)
}

fn is_trigger(c: u8) -> (r: bool)
    ensures
        r == trigger_byte(c),
{
    c == 32 || c == 33 || (35 <= c && c <= 46) || c == 59 || (60 <= c && c <= 64) || (91 <= c && c
        <= 95) || (123 <= c && c <= 126)
}

/// A byte is a trigger exactly when it is one of fldigi's FSQ trigger
/// characters `" !#$%&'()*+,-.;<=>?@[\]^_{|}~"`.
pub proof fn lemma_trigger_bytes_are_fldigi_set(c: u8)
    ensures
        trigger_byte(c) <==> " !#$%&'()*+,-.;<=>?@[\\]^_{|}~"@.contains(c as char),
{
    reveal_strlit(" !#$%&'()*+,-.;<=>?@[\\]^_{|}~");
    let t = " !#$%&'()*+,-.;<=>?@[\\]^_{|}~"@;
    let lit: Seq<char> = seq![
        ' ', '!', '#', '$', '%', '&', '\'', '(', ')', '*', '+', ',', '-', '.', ';', '<', '=', '>',
        '?', '@', '[', '\\', ']', '^', '_', '{', '|', '}', '~',
    ];
    assert(t =~= lit);
    if trigger_byte(c) {
        let i: int = if c == 32 {
            0
        } else if c == 33 {
            1
        } else if 35 <= c <= 46 {
            c - 33
        } else if 59 <= c <= 64 {
            c - 45
        } else if 91 <= c <= 95 {
            c - 71
        } else {
            c - 98
        };
        assert(t[i] == c as char);
    }
    if t.contains(c as char) {
        let i = choose|i: int| 0 <= i < t.len() && t[i] == c as char;
        assert(t[i] == lit[i]);
    }
}

pub open spec fn alpha(c: u8) -> bool {
    (65 <= c <= 90) || (97 <= c <= 122)
}

pub open spec fn digit(c: u8) -> bool {
    48 <= c <= 57
}

/// Whether some substring of `s` matches fldigi's callsign pattern
/// `[[:alnum:]]?[[:alpha:]/]+[[:digit:]]+[[:alnum:]/]+`: a letter or `/`
/// immediately followed by a digit and then a letter, digit or `/`.
pub open spec fn callsign_like(s: Seq<u8>) -> bool {
    exists|k: int|
        0 <= k && k + 2 < s.len() && (alpha(#[trigger] s[k]) || s[k] == 47) && digit(s[k + 1]) && (
        alpha(s[k + 2]) || digit(s[k + 2]) || s[k + 2] == 47)
}

fn looks_like_callsign(b: &[u8]) -> (r: bool)
    ensures
        r == callsign_like(b@),
{
    let n = b.len();
    if n < 3 {
        return false;
    }
    let mut k: usize = 0;
    while k < n - 2
        invariant
            n == b@.len(),
            n >= 3,
            k <= n - 2,
            forall|j: int|
                0 <= j < k ==> !((alpha(#[trigger] b@[j]) || b@[j] == 47) && digit(b@[j + 1]) && (
                alpha(b@[j + 2]) || digit(b@[j + 2]) || b@[j + 2] == 47)) || j + 2 >= n,
        decreases n - k,
    {
        let c0 = b[k];
        let c1 = b[k + 1];
        let c2 = b[k + 2];
        let a0 = (65 <= c0 && c0 <= 90) || (97 <= c0 && c0 <= 122) || c0 == 47;
        let d1 = 48 <= c1 && c1 <= 57;
        let a2 = (65 <= c2 && c2 <= 90) || (97 <= c2 && c2 <= 122) || (48 <= c2 && c2 <= 57)
            || c2 == 47;
        if a0 && d1 && a2 {
            return true;
        }
        k = k + 1;
    }
    false
}

/// Whether `pat` occurs in `s`.
pub open spec fn contains_sub(s: Seq<u8>, pat: Seq<u8>) -> bool {
    exists|i: int| 0 <= i && i + pat.len() <= s.len() && #[trigger] s.subrange(i, i + pat.len()) == pat
}

fn contains_bytes(s: &[u8], pat: &[u8]) -> (r: bool)
    ensures
        r == contains_sub(s@, pat@),
{
    if pat.len() > s.len() {
        return false;
    }
    if pat.len() == 0 {
        assert(s@.subrange(0, 0 + pat@.len() as int) =~= pat@);
        return true;
    }
    let mut i: usize = 0;
    let last = s.len() - pat.len();
    while i <= last
        invariant
            pat@.len() <= s@.len(),
            last == s@.len() - pat@.len(),
            i <= last + 1,
            pat@.len() >= 1,
            s@.len() == s.len(),
            forall|j: int|
                0 <= j < i ==> #[trigger] s@.subrange(j, j + pat@.len()) != pat@,
        decreases last + 1 - i,
    {
        let w = copy_range(s, i, i + pat.len());
        if bytes_eq(w.as_slice(), pat) {
            return true;
        }
        i = i + 1;
    }
    false
}

/// The bytes of `allcall`, `cqcqcq` and `Heard`.
pub open spec fn allcall_bytes() -> Seq<u8> {
    seq![97u8, 108, 108, 99, 97, 108, 108]
}

pub open spec fn cqcqcq_bytes() -> Seq<u8> {
    seq![99u8, 113, 99, 113, 99, 113]
}

pub open spec fn heard_bytes() -> Seq<u8> {
    seq![72u8, 101, 97, 114, 100]
}

/// Callsign classification: `0` not a call, `1` our call, `2` `allcall`, `4`
/// `cqcqcq`, `8` some other valid call.
pub open spec fn callsign_class(s: Seq<u8>, mycall: Seq<u8>) -> u8 {
    if s.len() < 3 || s.len() > 20 {
        0
    } else if s == allcall_bytes() {
        2
    } else if s == cqcqcq_bytes() {
        4
    } else if mycall.len() != 0 && s == mycall {
        1
    } else if contains_sub(s, heard_bytes()) {
        0
    } else if callsign_like(s) {
        8
    } else {
        0
    }
}

fn valid_callsign_bytes(s: &[u8], mycall: &[u8]) -> (r: u8)
    ensures
        r == callsign_class(s@, mycall@),
{
    if s.len() < 3 || s.len() > 20 {
        return 0;
    }
    let allcall: [u8; 7] = [97, 108, 108, 99, 97, 108, 108];
    let cqcqcq: [u8; 6] = [99, 113, 99, 113, 99, 113];
    let heard: [u8; 5] = [72, 101, 97, 114, 100];
    assert(allcall@ =~= allcall_bytes());
    assert(cqcqcq@ =~= cqcqcq_bytes());
    assert(heard@ =~= heard_bytes());
    if bytes_eq(s, &allcall) {
        return 2;
    }
    if bytes_eq(s, &cqcqcq) {
        return 4;
    }
    if mycall.len() != 0 && bytes_eq(s, mycall) {
        return 1;
    }
    if contains_bytes(s, &heard) {
        return 0;
    }
    if looks_like_callsign(s) {
        8
    } else {
        0
    }
}

/// Callsign classification, mirroring fldigi's `valid_callsign`: `0` = not a
/// call, `1` = our call, `2` = `allcall`, `4` = `cqcqcq`, `8` = some other
/// valid call.
pub fn valid_callsign(s: &str, mycall: &str) -> (r: u8)
    ensures
        r == callsign_class(s.spec_bytes(), mycall.spec_bytes()),
{
    valid_callsign_bytes(s.as_bytes(), mycall.as_bytes())
}

/// A heard-list entry as plain values: the callsign and its SNR report.
pub open spec fn entry_view(e: HeardEntry) -> (Seq<char>, Option<Seq<char>>) {
    (
        e.call@,
        match e.snr {
            Some(s) => Some(s@),
            None => None,
        },
    )
}

/// A station heard on the air, with its most recent SNR estimate.
#[derive(Debug, Clone, PartialEq, Eq)]
pub struct HeardEntry {
    pub call: String,
    pub snr: Option<String>,
}

impl View for HeardEntry {
    type V = (Seq<char>, Option<Seq<char>>);

    open spec fn view(&self) -> (Seq<char>, Option<Seq<char>>) {
        entry_view(*self)
    }
}

/// The heard list: most-recently-heard stations first, one entry per callsign.
#[derive(Debug)]
pub struct HeardList {
    entries: Vec<HeardEntry>,
}

impl View for HeardList {
    type V = Seq<(Seq<char>, Option<Seq<char>>)>;

    closed spec fn view(&self) -> Seq<(Seq<char>, Option<Seq<char>>)> {
        self.entries@.map_values(|e: HeardEntry| entry_view(e))
    }
}

/// Whether an entry is for some other callsign than `call`.
pub open spec fn other_call(call: Seq<char>) -> spec_fn((Seq<char>, Option<Seq<char>>)) -> bool {
    |e: (Seq<char>, Option<Seq<char>>)| e.0 != call
}

/// The list after hearing `call`: its entry first, every older entry for the
/// same call removed, the rest in order.
pub open spec fn heard_added(
    v: Seq<(Seq<char>, Option<Seq<char>>)>,
    call: Seq<char>,
    snr: Option<Seq<char>>,
) -> Seq<(Seq<char>, Option<Seq<char>>)> {
    seq![(call, snr)] + v.filter(other_call(call))
}

/// One line of the heard list: `call snr` or `call`, then a newline.
pub open spec fn heard_line(e: (Seq<char>, Option<Seq<char>>)) -> Seq<char> {
    match e.1 {
        Some(snr) => e.0 + seq![' '] + snr + seq!['\n'],
        None => e.0 + seq!['\n'],
    }
}

/// The heard list as text, one line per entry in list order.
pub open spec fn heard_text(v: Seq<(Seq<char>, Option<Seq<char>>)>) -> Seq<char>
    decreases v.len(),
{
    if v.len() == 0 {
        Seq::empty()
    } else {
        heard_text(v.drop_last()) + heard_line(v.last())
    }
}

impl HeardList {
    pub fn new() -> (h: HeardList)
        ensures
            h@ == Seq::<(Seq<char>, Option<Seq<char>>)>::empty(),
    {
        let h = HeardList { entries: Vec::new() };
        assert(h@ =~= Seq::<(Seq<char>, Option<Seq<char>>)>::empty());
        h
    }

    /// Register (or refresh) a station: it moves to the front, and any older
    /// entry for the same call is dropped.
    pub fn add(&mut self, call: &str, snr: Option<String>)
        ensures
            final(self)@ == heard_added(
                old(self)@,
                call@,
                match snr {
                    Some(s) => Some(s@),
                    None => None,
                },
            ),
    {
        let ghost v0 = self@;
        let ghost keep = other_call(call@);
        let mut i: usize = 0;
        let ghost mut j: int = 0;
        while i < self.entries.len()
            invariant
                0 <= j <= v0.len(),
                i <= self.entries@.len(),
                keep == other_call(call@),
                self@ == v0.take(j).filter(keep) + v0.skip(j),
                i == v0.take(j).filter(keep).len(),
            decreases self.entries@.len() - i,
        {
            proof {
                assert(self@[i as int] == v0[j]);
                assert(v0.take(j + 1).drop_last() =~= v0.take(j));
                assert(v0.take(j + 1).last() == v0[j]);
                reveal(Seq::filter);
            }
            if str_eq(self.entries[i].call.as_str(), call) {
                let ghost vb = self@;
                self.entries.remove(i);
                proof {
                    assert(self@ =~= vb.remove(i as int));
                    assert(vb.remove(i as int) =~= v0.take(j).filter(keep) + v0.skip(j).drop_first());
                    assert(v0.skip(j).drop_first() =~= v0.skip(j + 1));
                    j = j + 1;
                }
            } else {
                proof {
                    assert(self@ =~= v0.take(j).filter(keep).push(v0[j]) + v0.skip(j + 1));
                    j = j + 1;
                }
                i = i + 1;
            }
        }
        proof {
            assert(v0.skip(j).len() == 0);
            assert(v0.take(j) =~= v0);
        }
        let ghost before = self.entries@;
        let entry = HeardEntry { call: call.to_owned(), snr };
        self.entries.insert(0, entry);
        proof {
            assert(self.entries@ =~= before.insert(0, entry));
            assert(self@ =~= seq![entry_view(entry)] + v0.filter(keep));
        }
    }

    /// Whether `call` is on the list.
    pub fn contains(&self, call: &str) -> (r: bool)
        ensures
            r == exists|k: int| 0 <= k < self@.len() && (#[trigger] self@[k]).0 == call@,
    {
        let mut i: usize = 0;
        while i < self.entries.len()
            invariant
                i <= self.entries@.len(),
                forall|k: int| 0 <= k < i ==> (#[trigger] self@[k]).0 != call@,
            decreases self.entries@.len() - i,
        {
            if str_eq(self.entries[i].call.as_str(), call) {
                assert(self@[i as int].0 == call@);
                return true;
            }
            i = i + 1;
        }
        false
    }

    /// The entries, most recent first.
    pub fn entries(&self) -> (r: &[HeardEntry])
        ensures
            r@.map_values(|e: HeardEntry| entry_view(e)) == self@,
    {
        let r = self.entries.as_slice();
        assert(r@.map_values(|e: HeardEntry| entry_view(e)) =~= self@);
        r
    }

    /// A newline-separated `call snr` list, as the `$` responder embeds.
    pub fn list(&self) -> (s: String)
        ensures
            s@ == heard_text(self@),
    {
        let mut s = String::new();
        let mut i: usize = 0;
        while i < self.entries.len()
            invariant
                i <= self.entries@.len(),
                s@ == heard_text(self@.take(i as int)),
            decreases self.entries@.len() - i,
        {
            let e = &self.entries[i];
            let ghost before = s@;
            push_str(&mut s, e.call.as_str());
            match &e.snr {
                Some(snr) => {
                    string_push(&mut s, ' ');
                    push_str(&mut s, snr.as_str());
                },
                None => {},
            }
            string_push(&mut s, '\n');
            proof {
                let t = self@.take(i + 1);
                assert(t.drop_last() =~= self@.take(i as int));
                assert(t.last() == self@[i as int]);
                assert(s@ =~= before + heard_line(self@[i as int]));
            }
            i = i + 1;
        }
        assert(self@.take(i as int) =~= self@);
        s
    }
}

impl Default for HeardList {
    fn default() -> (h: HeardList)
        ensures
            h@ == Seq::<(Seq<char>, Option<Seq<char>>)>::empty(),
    {
        HeardList::new()
    }
}

/// First index at or after `i` holding `c`, or the length when there is none.
pub open spec fn find_byte(b: Seq<u8>, c: u8, i: int) -> int
    decreases b.len() - i,
{
    if i < 0 || i >= b.len() {
        b.len() as int
    } else if b[i] == c {
        i
    } else {
        find_byte(b, c, i + 1)
    }
}

/// First index at or after `i` holding a trigger, or the length when there
/// is none.
pub open spec fn find_trigger(b: Seq<u8>, i: int) -> int
    decreases b.len() - i,
{
    if i < 0 || i >= b.len() {
        b.len() as int
    } else if trigger_byte(b[i]) {
        i
    } else {
        find_trigger(b, i + 1)
    }
}

pub proof fn lemma_find_trigger_bounds(b: Seq<u8>, i: int)
    requires
        0 <= i <= b.len(),
    ensures
        i <= find_trigger(b, i) <= b.len(),
        find_trigger(b, i) < b.len() ==> trigger_byte(b[find_trigger(b, i)]),
        forall|k: int| i <= k < find_trigger(b, i) ==> !trigger_byte(#[trigger] b[k]),
    decreases b.len() - i,
{
    if i < b.len() && !trigger_byte(b[i]) {
        lemma_find_trigger_bounds(b, i + 1);
    }
}

/// Leading triggers removed while more than one byte remains.
pub open spec fn strip_triggers(r: Seq<u8>) -> Seq<u8>
    decreases r.len(),
{
    if r.len() > 1 && trigger_byte(r[0]) {
        strip_triggers(r.drop_first())
    } else {
        r
    }
}

/// A run of leading spaces collapsed to one.
pub open spec fn collapse_spaces(r: Seq<u8>) -> Seq<u8>
    decreases r.len(),
{
    if r.len() > 1 && r[0] == 32 && r[1] == 32 {
        collapse_spaces(r.drop_first())
    } else {
        r
    }
}

pub proof fn lemma_collapse_len(r: Seq<u8>)
    ensures
        collapse_spaces(r).len() <= r.len(),
    decreases r.len(),
{
    if r.len() > 1 && r[0] == 32 && r[1] == 32 {
        lemma_collapse_len(r.drop_first());
    }
}

/// The addressee walk over `r`, which starts at an addressee word. Each word
/// up to the next trigger is classified: our call sets `directed`, `allcall`
/// or `cqcqcq` set `all`, another call changes nothing, and a word that is no
/// call ends the walk with a space put before it (it starts the text). The
/// walk goes on past a single space after a call; it ends at a trigger. The
/// result is what remains, `all` and `directed`.
pub open spec fn walk(r: Seq<u8>, my: Seq<u8>, all: bool, directed: bool) -> (Seq<u8>, bool, bool)
    decreases r.len(),
{
    let t = find_trigger(r, 0);
    if t >= r.len() {
        (r, all, directed)
    } else {
        let cls = callsign_class(r.subrange(0, t), my);
        if cls == 0 {
            (seq![32u8] + r, all, directed)
        } else {
            let all2 = all || (cls != 1 && cls != 8);
            let directed2 = directed || cls == 1;
            let rest = collapse_spaces(r.subrange(t, r.len() as int));
            if rest.len() == 0 || rest[0] != 32 {
                (rest, all2, directed2)
            } else {
                proof {
                    lemma_find_trigger_bounds(r, 0);
                    lemma_collapse_len(r.subrange(t, r.len() as int));
                }
                walk(rest.drop_first(), my, all2, directed2)
            }
        }
    }
}

/// The sender search, scanning back from the colon at `p`: for `i` from `i`
/// to `maxi - 1`, the bytes `b[p-i..p]` name the sender when their CRC8 is
/// the two bytes after the colon and they classify as a call; a byte outside
/// `!`..`z` ends the search with no sender.
pub open spec fn sender_len(b: Seq<u8>, p: int, my: Seq<u8>, i: int, maxi: int) -> Option<int>
    decreases maxi - i,
{
    if i >= maxi {
        None
    } else if b[p - i] <= 32 || b[p - i] > 122 {
        None
    } else if crc8_hex(b.subrange(p - i, p)) == seq![b[p + 1], b[p + 2]] && callsign_class(
        b.subrange(p - i, p),
        my,
    ) != 0 {
        Some(i)
    } else {
        sender_len(b, p, my, i + 1, maxi)
    }
}

/// The sender named by a `<call>:<crc>` header: the colon is the first one,
/// with at least one byte before it and two after it.
pub open spec fn header_sender(b: Seq<u8>, my: Seq<u8>) -> Option<Seq<u8>> {
    let p = find_byte(b, 58, 0);
    if p >= b.len() || p == 0 || p + 2 >= b.len() {
        None
    } else {
        match sender_len(b, p, my, 1, if p + 1 < 20 { p + 1 } else { 20 }) {
            Some(k) => Some(b.subrange(p - k, p)),
            None => None,
        }
    }
}

/// The sender that gets registered as heard: a header sender other than us.
pub open spec fn heard_sender(b: Seq<u8>, my: Seq<u8>) -> Option<Seq<u8>> {
    match header_sender(b, my) {
        Some(s) => if s == my {
            None
        } else {
            Some(s)
        },
        None => None,
    }
}

/// The last three bytes (the end-of-transmission tail) dropped from a body
/// longer than three bytes.
pub open spec fn drop_tail(r: Seq<u8>) -> Seq<u8> {
    if r.len() > 3 {
        r.subrange(0, r.len() - 3)
    } else {
        r
    }
}

/// The leading trigger of a body: its first byte, or a space for an empty
/// body.
pub open spec fn lead_char(r: Seq<u8>) -> char {
    if r.len() > 0 {
        r[0] as char
    } else {
        ' '
    }
}

/// A parsed transmission as plain values: sender, addressed to us, addressed
/// to all, and body bytes; `None` when there is no accepted sender or nobody
/// we answer to is addressed.
pub open spec fn directed_outcome(b: Seq<u8>, my: Seq<u8>) -> Option<
    (Seq<u8>, bool, bool, Seq<u8>),
> {
    match heard_sender(b, my) {
        None => None,
        Some(s) => {
            let p = find_byte(b, 58, 0);
            let w = walk(strip_triggers(b.subrange(p + 3, b.len() as int)), my, false, false);
            if !w.1 && !w.2 {
                None
            } else {
                Some((s, w.2, w.1, drop_tail(w.0)))
            }
        },
    }
}

/// A parsed directed message. `to_me`/`to_all` say whether we or everybody
/// are addressed; `trigger` is the leading trigger character (`' '` = plain
/// text); `payload` is the message body after addressing, verbatim.
#[derive(Debug, Clone, PartialEq, Eq)]
pub struct DirectedMessage {
    pub from: String,
    pub crc_ok: bool,
    pub to_me: bool,
    pub to_all: bool,
    pub trigger: char,
    pub payload: String,
}

fn find_byte_exec(b: &[u8], c: u8) -> (r: usize)
    ensures
        r == find_byte(b@, c, 0),
{
    let mut i: usize = 0;
    while i < b.len() && b[i] != c
        invariant
            i <= b@.len(),
            find_byte(b@, c, i as int) == find_byte(b@, c, 0),
        decreases b@.len() - i,
    {
        i = i + 1;
    }
    i
}

/// Index of the first trigger in `rx`, or its length.
fn first_trigger(rx: &[u8]) -> (r: usize)
    ensures
        r == find_trigger(rx@, 0),
{
    let mut i: usize = 0;
    while i < rx.len() && !is_trigger(rx[i])
        invariant
            i <= rx@.len(),
            find_trigger(rx@, i as int) == find_trigger(rx@, 0),
        decreases rx@.len() - i,
    {
        i = i + 1;
    }
    i
}

/// The sender search of [`sender_len`] from `i = 1`.
fn scan_sender(b: &[u8], p: usize, my: &[u8], maxi: usize) -> (r: Option<usize>)
    requires
        maxi <= p + 1,
        p + 2 < b@.len(),
    ensures
        match r {
            Some(k) => 1 <= k < maxi && sender_len(b@, p as int, my@, 1, maxi as int) == Some(
                k as int,
            ),
            None => sender_len(b@, p as int, my@, 1, maxi as int) is None,
        },
{
    let mut i: usize = 1;
    while i < maxi
        invariant
            1 <= i,
            maxi <= p + 1,
            p + 2 < b@.len(),
            sender_len(b@, p as int, my@, i as int, maxi as int) == sender_len(
                b@,
                p as int,
                my@,
                1,
                maxi as int,
            ),
        decreases maxi - i,
    {
        let c = b[p - i];
        if c <= 32 || c > 122 {
            return None;
        }
        let sub = copy_range(b, p - i, p);
        let crc = crc8_hex_bytes(sub.as_slice());
        if crc[0] == b[p + 1] && crc[1] == b[p + 2] && valid_callsign_bytes(sub.as_slice(), my)
            != 0 {
            assert(crc@ =~= seq![b@[p + 1], b@[p + 2]]);
            return Some(i);
        }
        assert(crc8_hex(sub@) != seq![b@[p + 1], b@[p + 2]] || callsign_class(sub@, my@) == 0) by {
            if crc8_hex(sub@) == seq![b@[p + 1], b@[p + 2]] {
                assert(crc@[0] == b@[p + 1] && crc@[1] == b@[p + 2]);
            }
        }
        i = i + 1;
    }
    None
}

/// The addressee walk of [`walk`], run on `rx` in place; returns `all` and
/// `directed`.
fn walk_addressees(rx: &mut Vec<u8>, my: &[u8]) -> (r: (bool, bool))
    ensures
        walk(old(rx)@, my@, false, false) == (final(rx)@, r.0, r.1),
{
    let ghost target = walk(rx@, my@, false, false);
    let mut all = false;
    let mut directed = false;
    let mut tr_pos = first_trigger(rx.as_slice());
    loop
        invariant_except_break
            walk(rx@, my@, all, directed) == target,
            tr_pos == find_trigger(rx@, 0),
        ensures
            target == (rx@, all, directed),
        decreases rx@.len(),
    {
        proof {
            lemma_find_trigger_bounds(rx@, 0);
        }
        if tr_pos >= rx.len() {
            break ;
        }
        let word = copy_range(rx.as_slice(), 0, tr_pos);
        let cls = valid_callsign_bytes(word.as_slice(), my);
        if cls == 0 {
            let ghost before = rx@;
            rx.insert(0, 32);
            assert(rx@ =~= seq![32u8] + before);
            break ;
        } else if cls == 1 {
            directed = true;
        } else if cls == 8 {
        } else {
            all = true;
        }
        let ghost len0 = rx@.len();
        let rest = copy_range(rx.as_slice(), tr_pos, rx.len());
        *rx = rest;
        let ghost cut = rx@;
        while rx.len() > 1 && rx[0] == 32 && rx[1] == 32
            invariant
                collapse_spaces(rx@) == collapse_spaces(cut),
                rx@.len() <= cut.len(),
            decreases rx@.len(),
        {
            let ghost before = rx@;
            rx.remove(0);
            assert(rx@ =~= before.drop_first());
        }
        if rx.len() == 0 || rx[0] != 32 {
            break ;
        }
        let ghost before = rx@;
        rx.remove(0);
        assert(rx@ =~= before.drop_first());
        tr_pos = first_trigger(rx.as_slice());
    }
    (all, directed)
}

/// Parse an accumulated transmission (from BOT to EOT) into a directed
/// message, registering the CRC-verified sender in `heard`. Returns `None`
/// when there is no valid `<call>:<crc>` header, when the sender is our own
/// call, or when the message addresses neither us nor an all-call.
pub fn parse_rx_text(rx_text: &str, mycall: &str, heard: &mut HeardList) -> (r: Option<
    DirectedMessage,
>)
    ensures
        final(heard)@ == match heard_sender(rx_text.spec_bytes(), mycall.spec_bytes()) {
            Some(s) => heard_added(old(heard)@, latin1(s), None),
            None => old(heard)@,
        },
        match directed_outcome(rx_text.spec_bytes(), mycall.spec_bytes()) {
            None => r is None,
            Some(o) => (r matches Some(m) && m.from@ == latin1(o.0) && m.crc_ok && m.to_me == o.1
                && m.to_all == o.2 && m.trigger == lead_char(o.3) && m.payload@ == lossy_decode(
                o.3,
            ) && (vstd::utf8::valid_utf8(o.3) ==> m.payload@ == vstd::utf8::decode_utf8(o.3))),
        },
{
    let b = rx_text.as_bytes();
    let my = mycall.as_bytes();
    let n = b.len();
    let p = find_byte_exec(b, 58);
    if p >= n || p == 0 || n - p <= 2 {
        return None;
    }
    let maxi = if p + 1 < 20 {
        p + 1
    } else {
        20
    };
    let k = match scan_sender(b, p, my, maxi) {
        Some(k) => k,
        None => return None,
    };
    let sender = copy_range(b, p - k, p);
    if bytes_eq(sender.as_slice(), my) {
        return None;
    }
    let from = latin1_string(sender.as_slice());
    heard.add(from.as_str(), None);
    let mut rx = copy_range(b, p + 3, n);
    let ghost after_header = rx@;
    while rx.len() > 1 && is_trigger(rx[0])
        invariant
            strip_triggers(rx@) == strip_triggers(after_header),
        decreases rx@.len(),
    {
        let ghost before = rx@;
        rx.remove(0);
        assert(rx@ =~= before.drop_first());
    }
    let (all, directed) = walk_addressees(&mut rx, my);
    if !all && !directed {
        return None;
    }
    if rx.len() > 3 {
        let keep = rx.len() - 3;
        rx.truncate(keep);
    }
    let trigger = if rx.len() > 0 {
        rx[0] as char
    } else {
        ' '
    };
    let payload = utf8_lossy(rx.as_slice());
    Some(DirectedMessage { from, crc_ok: true, to_me: directed, to_all: all, trigger, payload })
}

/// The reply body for a directed message: `?` answers with our SNR report,
/// `*` acknowledges, `$` sends the heard list; other triggers get no reply.
pub open spec fn reply_text(
    from: Seq<char>,
    trigger: char,
    snr: Seq<char>,
    heard: Seq<(Seq<char>, Option<Seq<char>>)>,
) -> Option<Seq<char>> {
    if trigger == '?' {
        Some(from + " snr="@ + snr)
    } else if trigger == '*' {
        Some(from + " ack"@)
    } else if trigger == '$' {
        Some(from + " Heard:\n"@ + heard_text(heard))
    } else {
        None
    }
}

/// Synthesise the reply body a station transmits for a directed message, for
/// the automatic responders (`?` snr, `*` ack, `$` heard). The caller frames
/// it with `build_tx(mycall, body, true)`. `None` for plain text and for
/// triggers with no automatic reply.
pub fn reply_for(msg: &DirectedMessage, snr: &str, heard: &HeardList) -> (r: Option<String>)
    ensures
        match reply_text(msg.from@, msg.trigger, snr@, heard@) {
            Some(t) => r matches Some(s) && s@ == t,
            None => r is None,
        },
{
    if msg.trigger == '?' {
        let mut s = String::new();
        push_str(&mut s, msg.from.as_str());
        push_str(&mut s, " snr=");
        push_str(&mut s, snr);
        Some(s)
    } else if msg.trigger == '*' {
        let mut s = String::new();
        push_str(&mut s, msg.from.as_str());
        push_str(&mut s, " ack");
        Some(s)
    } else if msg.trigger == '$' {
        let mut s = String::new();
        push_str(&mut s, msg.from.as_str());
        push_str(&mut s, " Heard:\n");
        let l = heard.list();
        push_str(&mut s, l.as_str());
        Some(s)
    } else {
        None
    }
}

/// No callsign occurs twice in a heard list.
pub open spec fn calls_distinct(v: Seq<(Seq<char>, Option<Seq<char>>)>) -> bool {
    forall|i: int, j: int| 0 <= i < j < v.len() ==> (#[trigger] v[i]).0 != (#[trigger] v[j]).0
}

proof fn lemma_filter_distinct(v: Seq<(Seq<char>, Option<Seq<char>>)>, call: Seq<char>)
    requires
        calls_distinct(v),
    ensures
        calls_distinct(v.filter(other_call(call))),
        forall|k: int|
            0 <= k < v.filter(other_call(call)).len() ==> exists|j: int|
                0 <= j < v.len() && #[trigger] v.filter(other_call(call))[k] == v[j],
    decreases v.len(),
{
    reveal(Seq::filter);
    let f = v.filter(other_call(call));
    if v.len() > 0 {
        let d = v.drop_last();
        assert(calls_distinct(d)) by {
            assert forall|i: int, j: int| 0 <= i < j < d.len() implies (#[trigger] d[i]).0 != (
            #[trigger] d[j]).0 by {
                assert(d[i] == v[i] && d[j] == v[j]);
            }
        }
        lemma_filter_distinct(d, call);
        let fd = d.filter(other_call(call));
        assert forall|k: int| 0 <= k < f.len() implies exists|j: int|
            0 <= j < v.len() && #[trigger] f[k] == v[j] by {
            if k < fd.len() {
                let j = choose|j: int| 0 <= j < d.len() && fd[k] == d[j];
                assert(f[k] == fd[k]);
                assert(f[k] == v[j]);
            } else {
                assert(f[k] == v[v.len() - 1]);
            }
        }
        assert forall|i: int, j: int| 0 <= i < j < f.len() implies (#[trigger] f[i]).0 != (
        #[trigger] f[j]).0 by {
            if j < fd.len() {
                assert(f[i] == fd[i] && f[j] == fd[j]);
            } else {
                let ji = choose|m: int| 0 <= m < d.len() && fd[i] == d[m];
                assert(f[i] == fd[i]);
                assert(f[j] == v[v.len() - 1]);
                assert(d[ji] == v[ji]);
            }
        }
    }
}

/// Hearing a station keeps the heard list free of repeated callsigns, and
/// puts that station first.
pub proof fn lemma_heard_added_distinct(
    v: Seq<(Seq<char>, Option<Seq<char>>)>,
    call: Seq<char>,
    snr: Option<Seq<char>>,
)
    requires
        calls_distinct(v),
    ensures
        calls_distinct(heard_added(v, call, snr)),
        heard_added(v, call, snr)[0] == (call, snr),
{
    lemma_filter_distinct(v, call);
    let f = v.filter(other_call(call));
    let h = heard_added(v, call, snr);
    assert forall|i: int, j: int| 0 <= i < j < h.len() implies (#[trigger] h[i]).0 != (
    #[trigger] h[j]).0 by {
        if i == 0 {
            assert(h[j] == f[j - 1]);
            v.lemma_filter_pred(other_call(call), j - 1);
        } else {
            assert(h[i] == f[i - 1] && h[j] == f[j - 1]);
        }
    }
}


/// A call fit to head a directed transmission: 1 to 19 bytes, each printable
/// (`!`..`z`) and none a colon.
pub open spec fn header_call(c: Seq<u8>) -> bool {
    &&& 1 <= c.len() <= 19
    &&& forall|k: int| 0 <= k < c.len() ==> 33 <= #[trigger] c[k] <= 122 && c[k] != 58
}

/// The tail of `c` of length `i`.
pub open spec fn call_tail(c: Seq<u8>, i: int) -> Seq<u8> {
    c.subrange(c.len() - i, c.len() as int)
}

/// No shorter tail of `c` passes for the sender: none is a call (for a
/// receiver whose call is `my`) that has the CRC-8 digits of `c`.
pub open spec fn no_tail_alias(c: Seq<u8>, my: Seq<u8>) -> bool {
    forall|i: int|
        1 <= i < c.len() ==> !(crc8_hex(#[trigger] call_tail(c, i)) == crc8_hex(c)
            && callsign_class(call_tail(c, i), my) != 0)
}

proof fn lemma_find_byte_at(b: Seq<u8>, c: u8, j: int, p: int)
    requires
        0 <= j <= p < b.len(),
        b[p] == c,
        forall|k: int| j <= k < p ==> b[k] != c,
    ensures
        find_byte(b, c, j) == p,
    decreases p - j,
{
    if j < p {
        lemma_find_byte_at(b, c, j + 1, p);
    }
}

proof fn lemma_sender_found(b: Seq<u8>, p: int, c: Seq<u8>, my: Seq<u8>, i: int, maxi: int)
    requires
        header_call(c),
        callsign_class(c, my) != 0,
        no_tail_alias(c, my),
        1 <= i <= c.len() < maxi,
        c.len() <= p,
        p + 2 < b.len(),
        b.subrange(p - c.len(), p) == c,
        seq![b[p + 1], b[p + 2]] == crc8_hex(c),
    ensures
        sender_len(b, p, my, i, maxi) == Some(c.len() as int),
    decreases c.len() - i,
{
    let n = c.len() as int;
    assert(b[p - i] == c[n - i]) by {
        assert(b.subrange(p - n, p)[n - i] == b[p - i]);
    }
    assert(b.subrange(p - i, p) == call_tail(c, i)) by {
        assert(b.subrange(p - i, p) =~= b.subrange(p - n, p).subrange(n - i, n));
    }
    if i < n {
        assert(!(crc8_hex(call_tail(c, i)) == crc8_hex(c) && callsign_class(call_tail(c, i), my)
            != 0));
        lemma_sender_found(b, p, c, my, i + 1, maxi);
    } else {
        assert(call_tail(c, i) =~= c);
    }
}

/// A directed transmission names its sender: after a prefix with no colon
/// whose last byte is outside `!`..`z` (the begin-of-line marker), the header
/// `<call>:<crc>` gives back exactly `call`, unless a shorter tail of the call
/// would pass for a call with the same CRC-8 digits.
pub proof fn lemma_header_names_sender(pre: Seq<u8>, c: Seq<u8>, rest: Seq<u8>, my: Seq<u8>)
    requires
        pre.len() >= 1,
        pre.last() < 33 || pre.last() > 122,
        forall|k: int| 0 <= k < pre.len() ==> #[trigger] pre[k] != 58,
        header_call(c),
        callsign_class(c, my) != 0,
        no_tail_alias(c, my),
    ensures
        header_sender(pre + c + seq![58u8] + crc8_hex(c) + rest, my) == Some(c),
        c != my ==> heard_sender(pre + c + seq![58u8] + crc8_hex(c) + rest, my) == Some(c),
{
    let b = pre + c + seq![58u8] + crc8_hex(c) + rest;
    let p = (pre.len() + c.len()) as int;
    let n = c.len() as int;
    assert(b[p] == 58);
    assert forall|k: int| 0 <= k < p implies b[k] != 58 by {
        if k < pre.len() {
            assert(b[k] == pre[k]);
        } else {
            assert(b[k] == c[k - pre.len()]);
        }
    }
    lemma_find_byte_at(b, 58, 0, p);
    let maxi: int = if p + 1 < 20 {
        p + 1
    } else {
        20
    };
    assert(b.subrange(p - n, p) =~= c);
    assert(seq![b[p + 1], b[p + 2]] =~= crc8_hex(c));
    lemma_sender_found(b, p, c, my, 1, maxi);
    assert(b.subrange(p - n, p) == c);
}

proof fn lemma_walk_keeps_directed(r: Seq<u8>, my: Seq<u8>, all: bool, directed: bool)
    requires
        directed,
    ensures
        walk(r, my, all, directed).2,
    decreases r.len(),
{
    let t = find_trigger(r, 0);
    if t < r.len() {
        let cls = callsign_class(r.subrange(0, t), my);
        if cls != 0 {
            let rest = collapse_spaces(r.subrange(t, r.len() as int));
            if rest.len() != 0 && rest[0] == 32 {
                lemma_find_trigger_bounds(r, 0);
                lemma_collapse_len(r.subrange(t, r.len() as int));
                lemma_walk_keeps_directed(rest.drop_first(), my, all || (cls != 1 && cls != 8), true);
            }
        }
    }
}

proof fn lemma_find_trigger_at(b: Seq<u8>, j: int, t: int)
    requires
        0 <= j <= t < b.len(),
        trigger_byte(b[t]),
        forall|k: int| j <= k < t ==> !trigger_byte(#[trigger] b[k]),
    ensures
        find_trigger(b, j) == t,
    decreases t - j,
{
    if j < t {
        lemma_find_trigger_at(b, j + 1, t);
    }
}

/// A directed transmission whose text opens with our call followed by a
/// trigger is addressed to us: the parse gives back its sender and marks it
/// as sent to us (under the conditions of [`lemma_header_names_sender`], for
/// a sender other than us and a call of ours that holds no trigger byte).
pub proof fn lemma_directed_to_addressee(pre: Seq<u8>, c: Seq<u8>, rest: Seq<u8>, my: Seq<u8>)
    requires
        pre.len() >= 1,
        pre.last() < 33 || pre.last() > 122,
        forall|k: int| 0 <= k < pre.len() ==> #[trigger] pre[k] != 58,
        header_call(c),
        callsign_class(c, my) != 0,
        no_tail_alias(c, my),
        c != my,
        3 <= my.len() <= 20,
        my != allcall_bytes(),
        my != cqcqcq_bytes(),
        forall|k: int| 0 <= k < my.len() ==> !trigger_byte(#[trigger] my[k]),
        rest.len() > my.len(),
        rest.subrange(0, my.len() as int) == my,
        trigger_byte(rest[my.len() as int]),
    ensures
        directed_outcome(pre + c + seq![58u8] + crc8_hex(c) + rest, my) matches Some(o) && o.0 == c
            && o.1,
{
    let b = pre + c + seq![58u8] + crc8_hex(c) + rest;
    lemma_header_names_sender(pre, c, rest, my);
    let p = (pre.len() + c.len()) as int;
    assert(b[p] == 58);
    assert forall|k: int| 0 <= k < p implies b[k] != 58 by {
        if k < pre.len() {
            assert(b[k] == pre[k]);
        } else {
            assert(b[k] == c[k - pre.len()]);
        }
    }
    lemma_find_byte_at(b, 58, 0, p);
    assert(b.subrange(p + 3, b.len() as int) =~= rest);
    let n = my.len() as int;
    assert(rest[0] == my[0]);
    assert(strip_triggers(rest) == rest);
    assert forall|k: int| 0 <= k < n implies !trigger_byte(#[trigger] rest[k]) by {
        assert(rest.subrange(0, n)[k] == rest[k]);
    }
    lemma_find_trigger_at(rest, 0, n);
    assert(callsign_class(rest.subrange(0, n), my) == 1);
    let cls = 1u8;
    let t = n;
    let r2 = collapse_spaces(rest.subrange(t, rest.len() as int));
    if r2.len() != 0 && r2[0] == 32 {
        lemma_find_trigger_bounds(rest, 0);
        lemma_collapse_len(rest.subrange(t, rest.len() as int));
        lemma_walk_keeps_directed(r2.drop_first(), my, false, true);
    }
    assert(walk(rest, my, false, false).2);
}

} // verus!
