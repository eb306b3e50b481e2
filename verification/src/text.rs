use vstd::prelude::*;

verus! {

/// The length, first character and last five characters of a label (the
/// first character in place of a position before the start). Two labels with
/// different keys are different; proofs that a set of labels is free of
/// repeats compare their keys.
pub open spec fn label_key(s: Seq<char>) -> (int, char, char, char, char, char, char) {
    let n = s.len() as int;
    (
        n,
        s[0],
        s[n - 1],
        s[if n >= 2 { n - 2 } else { 0 }],
        s[if n >= 3 { n - 3 } else { 0 }],
        s[if n >= 4 { n - 4 } else { 0 }],
        s[if n >= 5 { n - 5 } else { 0 }],
    )
}

/// The characters of `s`, in order.
pub fn str_chars(s: &str) -> (v: Vec<char>)
    ensures
        v@ == s@,
{
    let mut v: Vec<char> = Vec::new();
    for c in it: s.chars()
        invariant
            v@ == it.seq().take(it.index() as int),
    {
        v.push(c);
    }
    v
}

} // verus!
verus! {

/// Appends `c` to `s` through `String::push`. Its contract is taken on
/// trust from the std documentation: the characters of `s` gain `c` at the
/// end and are otherwise unchanged.
#[verifier::external_body]
pub(crate) fn string_push(s: &mut String, c: char)
    ensures
        final(s)@ == old(s)@.push(c),
{
    s.push(c);
}

/// A `String` holding exactly the characters `v`.
pub fn string_from_chars(v: &[char]) -> (s: String)
    ensures
        s@ == v@,
{
    let mut s = String::new();
    for i in 0..v.len()
        invariant
            s@ == v@.take(i as int),
    {
        string_push(&mut s, v[i]);
        assert(v@.take(i + 1) == v@.take(i as int).push(v@[i as int]));
    }
    assert(v@.take(v.len() as int) == v@);
    s
}

/// Whether two strings hold the same characters.
pub fn str_eq(a: &str, b: &str) -> (r: bool)
    ensures
        r == (a@ == b@),
{
    let x = str_chars(a);
    let y = str_chars(b);
    if x.len() != y.len() {
        return false;
    }
    for i in 0..x.len()
        invariant
            x@ == a@,
            y@ == b@,
            x.len() == y.len(),
            forall|j: int| 0 <= j < i ==> x@[j] == y@[j],
    {
        if x[i] != y[i] {
            return false;
        }
    }
    assert(x@ =~= y@);
    true
}

} // verus!

verus! {

/// Appends the characters of `t` to `s`.
pub fn push_str(s: &mut String, t: &str)
    ensures
        final(s)@ == old(s)@ + t@,
{
    let cs = str_chars(t);
    let ghost s0 = s@;
    for i in 0..cs.len()
        invariant
            cs@ == t@,
            s@ == s0 + t@.take(i as int),
    {
        string_push(s, cs[i]);
        assert(t@.take(i + 1) =~= t@.take(i as int).push(t@[i as int]));
    }
    assert(t@.take(cs.len() as int) =~= t@);
}

/// The characters of an ASCII (or Latin-1) byte string, one per byte.
pub open spec fn latin1(b: Seq<u8>) -> Seq<char> {
    b.map_values(|x: u8| x as char)
}

/// A `String` holding one character per byte of `b`.
pub fn latin1_string(b: &[u8]) -> (s: String)
    ensures
        s@ == latin1(b@),
{
    let mut s = String::new();
    for i in 0..b.len()
        invariant
            s@ == latin1(b@.take(i as int)),
    {
        string_push(&mut s, b[i] as char);
        assert(latin1(b@.take(i + 1)) =~= latin1(b@.take(i as int)).push(b@[i as int] as char));
    }
    assert(b@.take(b.len() as int) =~= b@);
    s
}

/// The characters `String::from_utf8_lossy` makes of a byte string: the
/// decoded text, with each invalid sequence replaced by U+FFFD.
pub uninterp spec fn lossy_decode(b: Seq<u8>) -> Seq<char>;

/// Decode UTF-8 bytes into a `String`, replacing invalid sequences
/// (`String::from_utf8_lossy`). The result is [`lossy_decode`] of the bytes,
/// a function of the bytes alone; for valid UTF-8 it is the decoded text.
/// Where the bytes are not valid UTF-8, which characters replace them is left
/// to the name. The contract is taken on trust from the std documentation.
#[verifier::external_body]
pub(crate) fn utf8_lossy(b: &[u8]) -> (s: String)
    ensures
        s@ == lossy_decode(b@),
        vstd::utf8::valid_utf8(b@) ==> s@ == vstd::utf8::decode_utf8(b@),
{
    String::from_utf8_lossy(b).into_owned()
}

/// A copy of `v[a..b]`.
pub fn copy_range(v: &[u8], a: usize, b: usize) -> (r: Vec<u8>)
    requires
        a <= b <= v@.len(),
    ensures
        r@ == v@.subrange(a as int, b as int),
{
    let mut r: Vec<u8> = Vec::with_capacity(b - a);
    for i in a..b
        invariant
            a <= b <= v@.len(),
            r@ == v@.subrange(a as int, i as int),
    {
        r.push(v[i]);
        assert(v@.subrange(a as int, i + 1) =~= v@.subrange(a as int, i as int).push(v@[i as int]));
    }
    r
}

/// Whether two byte strings are equal.
pub fn bytes_eq(a: &[u8], b: &[u8]) -> (r: bool)
    ensures
        r == (a@ == b@),
{
    if a.len() != b.len() {
        return false;
    }
    for i in 0..a.len()
        invariant
            a.len() == b.len(),
            forall|j: int| 0 <= j < i ==> a@[j] == b@[j],
    {
        if a[i] != b[i] {
            return false;
        }
    }
    assert(a@ =~= b@);
    true
}


/// The decimal digit character for `d` (below 10).
pub open spec fn digit_char(d: nat) -> char {
    (48 + d) as char
}

/// The decimal representation of `n`, without leading zeros.
pub open spec fn decimal(n: nat) -> Seq<char>
    decreases n,
{
    if n < 10 {
        seq![digit_char(n)]
    } else {
        decimal(n / 10).push(digit_char(n % 10))
    }
}

/// Appends the decimal representation of `n` to `s`.
pub fn push_decimal(s: &mut String, n: u32)
    ensures
        final(s)@ == old(s)@ + decimal(n as nat),
    decreases n,
{
    if n >= 10 {
        push_decimal(s, n / 10);
    }
    let d = (n % 10) as u8;
    string_push(s, (48u8 + d) as char);
    proof {
        assert(old(s)@ + decimal(n as nat) =~= if n >= 10 {
            old(s)@ + decimal((n / 10) as nat) + seq![digit_char((n % 10) as nat)]
        } else {
            old(s)@ + seq![digit_char(n as nat)]
        });
    }
}

/// Whether `c` is an ASCII decimal digit.
pub open spec fn is_digit_char(c: char) -> bool {
    '0' <= c <= '9'
}

/// The value of a string of decimal digits.
pub open spec fn digits_value(t: Seq<char>) -> nat
    decreases t.len(),
{
    if t.len() == 0 {
        0
    } else {
        digits_value(t.drop_last()) * 10 + ((t.last() as int - 48) as nat)
    }
}

/// Whether `d` is one or more decimal digits.
pub open spec fn all_digits(d: Seq<char>) -> bool {
    d.len() > 0 && forall|i: int| 0 <= i < d.len() ==> is_digit_char(#[trigger] d[i])
}

/// `t` without a leading `+`.
pub open spec fn strip_plus(t: Seq<char>) -> Seq<char> {
    if t.len() > 0 && t[0] == '+' {
        t.skip(1)
    } else {
        t
    }
}

/// What parsing `t` as a `u16` gives (Rust's `u16::from_str`): an optional
/// `+`, then one or more decimal digits whose value fits in 16 bits.
pub open spec fn parse_u16(t: Seq<char>) -> Option<u16> {
    let d = strip_plus(t);
    if all_digits(d) && digits_value(d) <= 65535 {
        Some(digits_value(d) as u16)
    } else {
        None
    }
}

/// Parses `t` as a `u16` exactly as [`parse_u16`] describes.
pub fn parse_u16_chars(t: &[char]) -> (r: Option<u16>)
    ensures
        r == parse_u16(t@),
{
    let start: usize = if t.len() > 0 && t[0] == '+' {
        1
    } else {
        0
    };
    let ghost d = strip_plus(t@);
    assert(d =~= t@.skip(start as int));
    if start >= t.len() {
        return None;
    }
    let mut v: u32 = 0;
    let mut i: usize = start;
    while i < t.len()
        invariant
            start <= i <= t@.len(),
            d == t@.skip(start as int),
            d == strip_plus(t@),
            forall|k: int| 0 <= k < i - start ==> is_digit_char(#[trigger] d[k]),
            v == digits_value(d.take(i - start)),
            v <= 65535,
        decreases t@.len() - i,
    {
        let c = t[i];
        if !('0' <= c && c <= '9') {
            assert(!is_digit_char(d[i - start]));
            return None;
        }
        let dv = (c as u32) - 48;
        let nv = v * 10 + dv;
        proof {
            let p = d.take(i - start + 1);
            assert(p.drop_last() =~= d.take(i - start));
            assert(p.last() == c);
        }
        if nv > 65535 {
            proof {
                if all_digits(d) {
                    lemma_digits_value_prefix_mono(d, i - start + 1);
                }
            }
            return None;
        }
        v = nv;
        i = i + 1;
    }
    assert(d.take(d.len() as int) =~= d);
    Some(v as u16)
}

/// A longer digit prefix has a value at least as large.
pub proof fn lemma_digits_value_prefix_mono(d: Seq<char>, k: int)
    requires
        0 <= k <= d.len(),
        forall|i: int| 0 <= i < d.len() ==> is_digit_char(#[trigger] d[i]),
    ensures
        digits_value(d.take(k)) <= digits_value(d),
    decreases d.len() - k,
{
    if k < d.len() {
        lemma_digits_value_prefix_mono(d, k + 1);
        let p = d.take(k + 1);
        assert(p.drop_last() =~= d.take(k));
        assert(is_digit_char(d[k]));
    } else {
        assert(d.take(k) =~= d);
    }
}

/// The decimal representation of a number is all digits, starts with a
/// digit, and reads back as the number.
pub proof fn lemma_decimal_digits(n: nat)
    ensures
        decimal(n).len() > 0,
        forall|i: int| 0 <= i < decimal(n).len() ==> is_digit_char(#[trigger] decimal(n)[i]),
        digits_value(decimal(n)) == n,
    decreases n,
{
    let q = decimal(n);
    let d = n % 10;
    assert(digit_char(d) as int == 48 + d);
    if n >= 10 {
        lemma_decimal_digits(n / 10);
        let p = decimal(n / 10);
        assert(q.drop_last() =~= p);
        assert(q.last() == digit_char(d));
        assert(digits_value(q) == digits_value(p) * 10 + d);
        assert(n == (n / 10) * 10 + d);
        assert forall|i: int| 0 <= i < q.len() implies is_digit_char(#[trigger] q[i]) by {
            if i < p.len() {
                assert(q[i] == p[i]);
            }
        }
    } else {
        assert(q.drop_last() =~= Seq::<char>::empty());
        assert(d == n);
        assert(q.last() == digit_char(n));
        assert(digits_value(Seq::<char>::empty()) == 0);
        assert(digits_value(q) == digits_value(q.drop_last()) * 10 + ((q.last() as int - 48) as nat));
    }
}

/// Every `u16` printed in decimal parses back to itself.
pub proof fn lemma_parse_u16_decimal(n: u16)
    ensures
        parse_u16(decimal(n as nat)) == Some(n),
{
    lemma_decimal_digits(n as nat);
    if n < 10 {
        assert(decimal(n as nat)[0] as int == 48 + n);
    }
    assert(is_digit_char(decimal(n as nat)[0]));
}


/// First index at or after `i` holding `c`, or the length when there is none.
pub open spec fn find_char(s: Seq<char>, c: char, i: int) -> int
    decreases s.len() - i,
{
    if i < 0 || i >= s.len() {
        s.len() as int
    } else if s[i] == c {
        i
    } else {
        find_char(s, c, i + 1)
    }
}

pub proof fn lemma_find_char_past(s: Seq<char>, c: char, i: int, j: int)
    requires
        0 <= i <= j <= s.len(),
        forall|k: int| i <= k < j ==> s[k] != c,
        j == s.len() || s[j] == c,
    ensures
        find_char(s, c, i) == j,
    decreases j - i,
{
    if i < j {
        lemma_find_char_past(s, c, i + 1, j);
    }
}

/// Index of the first `c` in `s`, or its length.
pub fn find_char_exec(s: &[char], c: char) -> (r: usize)
    ensures
        r == find_char(s@, c, 0),
{
    let mut i: usize = 0;
    while i < s.len() && s[i] != c
        invariant
            i <= s@.len(),
            find_char(s@, c, i as int) == find_char(s@, c, 0),
        decreases s@.len() - i,
    {
        i = i + 1;
    }
    i
}


/// A copy of `v[a..b]`.
pub fn copy_chars(v: &[char], a: usize, b: usize) -> (r: Vec<char>)
    requires
        a <= b <= v@.len(),
    ensures
        r@ == v@.subrange(a as int, b as int),
{
    let mut r: Vec<char> = Vec::new();
    for i in a..b
        invariant
            a <= b <= v@.len(),
            r@ == v@.subrange(a as int, i as int),
    {
        r.push(v[i]);
        assert(v@.subrange(a as int, i + 1) =~= v@.subrange(a as int, i as int).push(v@[i as int]));
    }
    r
}


/// Whether `pat` occurs in `s` at `i`.
pub open spec fn occurs_at(s: Seq<u8>, pat: Seq<u8>, i: int) -> bool {
    0 <= i && i + pat.len() <= s.len() && s.subrange(i, i + pat.len() as int) == pat
}

/// The first index at or after `i` where `pat` occurs in `s`, if any.
pub open spec fn find_sub(s: Seq<u8>, pat: Seq<u8>, i: int) -> Option<int>
    decreases s.len() - i,
{
    if i < 0 || i + pat.len() > s.len() {
        None
    } else if occurs_at(s, pat, i) {
        Some(i)
    } else if i >= s.len() {
        None
    } else {
        find_sub(s, pat, i + 1)
    }
}

/// The first index where `pat` occurs in `s` (`str::find` on bytes).
pub fn find_bytes(s: &[u8], pat: &[u8]) -> (r: Option<usize>)
    ensures
        match r {
            Some(i) => find_sub(s@, pat@, 0) == Some(i as int),
            None => find_sub(s@, pat@, 0) is None,
        },
{
    if pat.len() > s.len() {
        return None;
    }
    if pat.len() == 0 {
        assert(s@.subrange(0, 0) =~= pat@);
        return Some(0);
    }
    let last = s.len() - pat.len();
    let mut i: usize = 0;
    while i <= last
        invariant
            last == s@.len() - pat@.len(),
            s@.len() == s.len(),
            pat@.len() == pat.len(),
            pat@.len() >= 1,
            i <= last + 1,
            find_sub(s@, pat@, i as int) == find_sub(s@, pat@, 0),
        decreases last + 1 - i,
    {
        let w = copy_range(s, i, i + pat.len());
        if bytes_eq(w.as_slice(), pat) {
            return Some(i);
        }
        i = i + 1;
    }
    None
}

/// Whether every byte is ASCII.
pub open spec fn all_ascii(b: Seq<u8>) -> bool {
    forall|i: int| 0 <= i < b.len() ==> #[trigger] b[i] < 128
}

/// The UTF-8 encoding of ASCII bytes read as characters is the bytes
/// themselves.
pub proof fn lemma_ascii_encode(b: Seq<u8>)
    requires
        all_ascii(b),
    ensures
        vstd::utf8::encode_utf8(latin1(b)) == b,
{
    let c = latin1(b);
    assert(vstd::utf8::is_ascii_chars(c)) by {
        assert forall|i| 0 <= i < c.len() implies '\0' <= #[trigger] c[i] <= '\u{7f}' by {
            assert(b[i] < 128);
        }
    }
    vstd::utf8::is_ascii_chars_encode_utf8(c);
    assert(vstd::utf8::encode_utf8(c) =~= b);
}


/// Whether a byte is an ASCII decimal digit.
pub open spec fn digit_byte(c: u8) -> bool {
    48 <= c <= 57
}

/// The decimal representation of `n` as ASCII bytes.
pub open spec fn decimal_bytes(n: nat) -> Seq<u8>
    decreases n,
{
    if n < 10 {
        seq![(48 + n) as u8]
    } else {
        decimal_bytes(n / 10).push((48 + n % 10) as u8)
    }
}

/// Appends the decimal representation of `n` to `v` as ASCII bytes.
pub fn push_decimal_bytes(v: &mut Vec<u8>, n: u32)
    ensures
        final(v)@ == old(v)@ + decimal_bytes(n as nat),
    decreases n,
{
    if n >= 10 {
        push_decimal_bytes(v, n / 10);
    }
    v.push(48u8 + (n % 10) as u8);
    proof {
        assert(old(v)@ + decimal_bytes(n as nat) =~= if n >= 10 {
            old(v)@ + decimal_bytes((n / 10) as nat) + seq![(48 + n % 10) as u8]
        } else {
            old(v)@ + seq![(48 + n) as u8]
        });
    }
}

/// The value of the decimal digits `b[i..j]`.
pub open spec fn digits_val(b: Seq<u8>, i: int, j: int) -> nat
    decreases j - i,
{
    if j <= i {
        0
    } else {
        digits_val(b, i, j - 1) * 10 + ((b[j - 1] - 48) as nat)
    }
}

/// The end of the run of decimal digits starting at `i`.
pub open spec fn digit_run_end(b: Seq<u8>, i: int) -> int
    decreases b.len() - i,
{
    if 0 <= i < b.len() && digit_byte(b[i]) {
        digit_run_end(b, i + 1)
    } else {
        i
    }
}

pub proof fn lemma_digit_run_end(b: Seq<u8>, i: int, j: int)
    requires
        0 <= i <= j <= b.len(),
        forall|k: int| i <= k < j ==> digit_byte(#[trigger] b[k]),
        j == b.len() || !digit_byte(b[j]),
    ensures
        digit_run_end(b, i) == j,
    decreases j - i,
{
    if i < j {
        lemma_digit_run_end(b, i + 1, j);
    }
}

pub proof fn lemma_digit_run_end_bounds(b: Seq<u8>, i: int)
    requires
        0 <= i <= b.len(),
    ensures
        i <= digit_run_end(b, i) <= b.len(),
        forall|k: int| i <= k < digit_run_end(b, i) ==> digit_byte(#[trigger] b[k]),
        digit_run_end(b, i) < b.len() ==> !digit_byte(b[digit_run_end(b, i)]),
    decreases b.len() - i,
{
    if i < b.len() && digit_byte(b[i]) {
        lemma_digit_run_end_bounds(b, i + 1);
    }
}

/// A longer run of digits has a value at least as large.
pub proof fn lemma_digits_val_mono(b: Seq<u8>, i: int, j: int, k: int)
    requires
        i <= j <= k,
    ensures
        digits_val(b, i, j) <= digits_val(b, i, k),
    decreases k - j,
{
    if j < k {
        lemma_digits_val_mono(b, i, j, k - 1);
    }
}

/// The value of digits depends only on the digits: a segment placed after
/// `pre` reads the same.
pub proof fn lemma_digits_val_shift(pre: Seq<u8>, d: Seq<u8>, post: Seq<u8>, j: int)
    requires
        0 <= j <= d.len(),
    ensures
        digits_val(pre + d + post, pre.len() as int, pre.len() + j) == digits_val(d, 0, j),
    decreases j,
{
    if j > 0 {
        lemma_digits_val_shift(pre, d, post, j - 1);
        assert((pre + d + post)[pre.len() + j - 1] == d[j - 1]);
    }
}

/// The decimal bytes of a number are one or more digits reading back as the
/// number.
pub proof fn lemma_decimal_bytes(n: nat)
    ensures
        decimal_bytes(n).len() > 0,
        forall|i: int| 0 <= i < decimal_bytes(n).len() ==> digit_byte(#[trigger] decimal_bytes(n)[i]),
        digits_val(decimal_bytes(n), 0, decimal_bytes(n).len() as int) == n,
    decreases n,
{
    let q = decimal_bytes(n);
    if n >= 10 {
        lemma_decimal_bytes(n / 10);
        let p = decimal_bytes(n / 10);
        assert(q.drop_last() =~= p);
        assert forall|i: int| 0 <= i < q.len() implies digit_byte(#[trigger] q[i]) by {
            if i < p.len() {
                assert(q[i] == p[i]);
            }
        }
        lemma_digits_val_prefix(q, p);
        assert(q.last() == (48 + n % 10) as u8);
        assert(digits_val(q, 0, q.len() as int) == digits_val(q, 0, p.len() as int) * 10 + ((q.last()
            - 48) as nat));
        assert(n == (n / 10) * 10 + n % 10);
    } else {
        assert(q[0] == (48 + n) as u8);
        assert(digits_val(q, 0, 0) == 0);
        assert(digits_val(q, 0, 1) == digits_val(q, 0, 0) * 10 + ((q[0] - 48) as nat));
    }
}

proof fn lemma_digits_val_prefix(q: Seq<u8>, p: Seq<u8>)
    requires
        q.len() == p.len() + 1,
        q.drop_last() == p,
    ensures
        digits_val(q, 0, p.len() as int) == digits_val(p, 0, p.len() as int),
{
    lemma_digits_val_shift(Seq::empty(), p, seq![q.last()], p.len() as int);
    assert(Seq::<u8>::empty() + p + seq![q.last()] =~= q);
}

} // verus!
