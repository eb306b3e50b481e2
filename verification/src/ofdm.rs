//! The 64-carrier overlapping-Walsh OFDM core of the MT63 modem: geometry,
//! interleave depths and patterns, the source encoder (Walsh spreading and
//! block interleaving) and the per-carrier phase-index accumulation that fixes
//! the differential-BPSK constellation on the wire.
use vstd::prelude::*;

verus! {

/// FFT and symbol-shape length.
pub const SYMBOL_LEN: usize = 512;

/// Baseband samples between successive symbols on a carrier.
pub const SYMBOL_SEPAR: usize = 200;

/// FFT-bin separation between carriers.
pub const DATA_CARR_SEPAR: usize = 4;

/// Number of data carriers.
pub const DATA_CARRIERS: usize = 64;

/// FFT size, equal to the symbol length: phase indices run over `0..FFT_SIZE`.
pub const FFT_SIZE: usize = 512;

/// Short interleave pattern (depth 32).
pub const SHORT_INTLV_PATT: [i32; 64] = [
    4, 5, 6, 7, 4, 5, 6, 7, 4, 5, 6, 7, 4, 5, 6, 7,
    4, 5, 6, 7, 4, 5, 6, 7, 4, 5, 6, 7, 4, 5, 6, 7,
    4, 5, 6, 7, 4, 5, 6, 7, 4, 5, 6, 7, 4, 5, 6, 7,
    4, 5, 6, 7, 4, 5, 6, 7, 4, 5, 6, 7, 4, 5, 6, 7,
];

/// Long interleave pattern (depth 64).
pub const LONG_INTLV_PATT: [i32; 64] = [
    1, 2, 3, 4, 5, 6, 7, 8, 9, 10, 11, 12, 13, 14, 15, 16,
    17, 18, 19, 20, 21, 22, 23, 24, 25, 26, 27, 28, 29, 30, 31, 32,
    33, 34, 35, 36, 37, 38, 39, 40, 41, 42, 43, 44, 45, 46, 47, 48,
    49, 50, 51, 52, 53, 54, 55, 56, 57, 58, 59, 60, 61, 62, 63, 0,
];

/// Interleave depth.
#[derive(Debug, Clone, Copy, PartialEq, Eq)]
pub enum Interleave {
    /// Depth 32.
    Short,
    /// Depth 64.
    Long,
}

/// The depth of each interleave.
pub open spec fn interleave_depth(i: Interleave) -> usize {
    match i {
        Interleave::Short => 32,
        Interleave::Long => 64,
    }
}

/// The interleave pattern of each depth.
pub open spec fn interleave_pattern(i: Interleave) -> Seq<i32> {
    match i {
        Interleave::Short => SHORT_INTLV_PATT@,
        Interleave::Long => LONG_INTLV_PATT@,
    }
}

impl Interleave {
    pub fn depth(self) -> (r: usize)
        ensures
            r == interleave_depth(self),
    {
        match self {
            Interleave::Short => 32,
            Interleave::Long => 64,
        }
    }

    /// The interleave pattern: per carrier, the step in past symbols.
    pub fn pattern(self) -> (r: [i32; 64])
        ensures
            r@ == interleave_pattern(self),
    {
        match self {
            Interleave::Short => SHORT_INTLV_PATT,
            Interleave::Long => LONG_INTLV_PATT,
        }
    }
}

/// Per-mode geometry derived from bandwidth and centre frequency.
#[derive(Debug, Clone, Copy)]
pub struct Mt63Geometry {
    pub bandwidth: u32,
    pub decimate: usize,
    pub first_data_carr: i32,
}


// ---- source encoder: Walsh spreading and block interleaving ----------------

/// Over the low `bits` bits, the positions where `code` has a one and
/// `carrier` a zero.
pub open spec fn walsh_flips(code: int, carrier: int, bits: nat) -> nat
    decreases bits,
{
    if bits == 0 {
        0
    } else {
        walsh_flips(code / 2, carrier / 2, (bits - 1) as nat) + if code % 2 == 1 && carrier % 2
            == 0 {
            1nat
        } else {
            0nat
        }
    }
}

/// The spread bit of character `c` on carrier `carrier`. The encoder puts `+1`
/// at index `c & 63` of a 64-vector (`-1` when bit 6 of `c` is set) and takes
/// its inverse Walsh transform; on carrier `i` that gives `±1`, negative exactly
/// when the count `walsh_flips(c & 63, i, 6)` is odd and bit 6 is clear, or even
/// and bit 6 is set (`lemma_walsh_bit_is_transform_sign`). The bit is 1 where
/// the value is negative.
pub open spec fn walsh_bit(c: u8, carrier: int) -> u8 {
    let code = c as int % 128;
    if (walsh_flips(code % 64, carrier, 6) % 2 == 1) != (code >= 64) {
        1
    } else {
        0
    }
}

/// `2^b`.
pub open spec fn pw(b: nat) -> int
    decreases b,
{
    if b == 0 {
        1
    } else {
        2 * pw((b - 1) as nat)
    }
}

/// The inverse fast Walsh transform of `x`, whose length is a power of two:
/// the butterfly `(a, b) -> (a - b, a + b)` across the two halves, then each
/// half transformed on its own, the order in which the in-place transform
/// runs its strides `n/2, n/4, …, 1`.
pub open spec fn inv_walsh(x: Seq<int>) -> Seq<int>
    decreases x.len(),
{
    if x.len() <= 1 {
        x
    } else {
        let h = x.len() / 2;
        inv_walsh(Seq::new(h as nat, |i: int| x[i] - x[i + h])) + inv_walsh(
            Seq::new(h as nat, |i: int| x[i] + x[i + h]),
        )
    }
}

/// The `n`-vector that is `s` at `k` and 0 elsewhere.
pub open spec fn signed_unit(n: nat, k: int, s: int) -> Seq<int> {
    Seq::new(n, |i: int| if i == k {
        s
    } else {
        0
    })
}

/// `-1` when `walsh_flips(k, i, b)` is odd, else `1`.
pub open spec fn flip_sign(k: int, i: int, b: nat) -> int {
    if walsh_flips(k, i, b) % 2 == 1 {
        -1
    } else {
        1
    }
}

/// Halving commutes with the remainder by a power of two (`h == 2q`).
proof fn lemma_halves(k: int, h: int, q: int)
    requires
        q >= 1,
        h == 2 * q,
        0 <= k < 2 * h,
    ensures
        (k % h) / 2 == (k / 2) % q,
        (k % h) % 2 == k % 2,
        (k / 2 >= q) == (k >= h),
        (k / 2 < q) == (k < h),
{
    let t = if k < h {
        0int
    } else {
        1int
    };
    vstd::arithmetic::div_mod::lemma_fundamental_div_mod_converse(k, h, t, k - t * h);
    let r = k - t * h;
    vstd::arithmetic::div_mod::lemma_fundamental_div_mod(r, 2);
    vstd::arithmetic::div_mod::lemma_fundamental_div_mod(k, 2);
    let a = r / 2;
    let c = r % 2;
    assert(k == 2 * (t * q + a) + c) by (nonlinear_arith)
        requires
            r == 2 * a + c,
            k == t * h + r,
            h == 2 * q,
    ;
    vstd::arithmetic::div_mod::lemma_fundamental_div_mod_converse(k, 2, t * q + a, c);
    assert(0 <= a < q);
    vstd::arithmetic::div_mod::lemma_fundamental_div_mod_converse(k / 2, q, t, a);
}

proof fn lemma_flips_top(k: int, i: int, b: nat)
    requires
        1 <= b <= 6,
        0 <= k < pw(b),
        0 <= i < pw(b),
    ensures
        walsh_flips(k, i, b) == walsh_flips(k % pw((b - 1) as nat), i % pw((b - 1) as nat), (b - 1) as nat)
            + if k >= pw((b - 1) as nat) && i < pw((b - 1) as nat) {
            1int
        } else {
            0int
        },
    decreases b,
{
    reveal_with_fuel(pw, 7);
    if b >= 2 {
        let h = pw((b - 1) as nat);
        let q = pw((b - 2) as nat);
        lemma_flips_top(k / 2, i / 2, (b - 1) as nat);
        assert(h == 2 * q);
        lemma_halves(k, h, q);
        lemma_halves(i, h, q);
    }
}

/// The inverse Walsh transform of a signed unit vector is `±s` everywhere:
/// `s` times `-1` to the number of bit positions where `k` has a one and the
/// index a zero.
pub proof fn lemma_inv_walsh_unit(b: nat, k: int, s: int)
    requires
        b <= 6,
        0 <= k < pw(b),
    ensures
        inv_walsh(signed_unit(pw(b) as nat, k, s)).len() == pw(b),
        forall|i: int|
            0 <= i < pw(b) ==> #[trigger] inv_walsh(signed_unit(pw(b) as nat, k, s))[i] == s
                * flip_sign(k, i, b),
    decreases b,
{
    reveal_with_fuel(pw, 7);
    let n = pw(b);
    let x = signed_unit(n as nat, k, s);
    if b == 0 {
        assert forall|i: int| 0 <= i < pw(b) implies #[trigger] inv_walsh(x)[i] == s * flip_sign(
            k,
            i,
            b,
        ) by {}
    } else {
        let h = pw((b - 1) as nat);
        assert(n == 2 * h && h >= 1);
        let lo = Seq::new(h as nat, |i: int| x[i] - x[i + h]);
        let hi = Seq::new(h as nat, |i: int| x[i] + x[i + h]);
        let k2 = if k < h {
            k
        } else {
            k - h
        };
        let s2 = if k < h {
            s
        } else {
            -s
        };
        assert(lo =~= signed_unit(h as nat, k2, s2));
        assert(hi =~= signed_unit(h as nat, k2, s));
        lemma_inv_walsh_unit((b - 1) as nat, k2, s2);
        lemma_inv_walsh_unit((b - 1) as nat, k2, s);
        assert(inv_walsh(x) == inv_walsh(lo) + inv_walsh(hi));
        assert forall|i: int| 0 <= i < pw(b) implies #[trigger] inv_walsh(x)[i] == s * flip_sign(
            k,
            i,
            b,
        ) by {
            lemma_flips_top(k, i, b);
            vstd::arithmetic::div_mod::lemma_fundamental_div_mod_converse(
                k,
                h,
                if k < h {
                    0int
                } else {
                    1int
                },
                k2,
            );
            if i < h {
                vstd::arithmetic::div_mod::lemma_fundamental_div_mod_converse(i, h, 0, i);
                assert(inv_walsh(x)[i] == inv_walsh(lo)[i]);
                assert(inv_walsh(lo)[i] == s2 * flip_sign(k2, i, (b - 1) as nat));
                assert(walsh_flips(k, i, b) == walsh_flips(k2, i, (b - 1) as nat) + if k >= h {
                    1int
                } else {
                    0int
                });
                let g = flip_sign(k2, i, (b - 1) as nat);
                if k >= h {
                    assert(flip_sign(k, i, b) == -g);
                    assert(s2 * g == s * (-g)) by (nonlinear_arith)
                        requires
                            s2 == -s,
                    ;
                } else {
                    assert(flip_sign(k, i, b) == g);
                }
            } else {
                vstd::arithmetic::div_mod::lemma_fundamental_div_mod_converse(i, h, 1, i - h);
                assert(inv_walsh(x)[i] == inv_walsh(hi)[i - h]);
                assert(inv_walsh(hi)[i - h] == s * flip_sign(k2, i - h, (b - 1) as nat));
                assert(walsh_flips(k, i, b) == walsh_flips(k2, i - h, (b - 1) as nat));
            }
        }
    }
}

/// The source vector of character `c`: `+1` at `c & 63`, negated when bit 6
/// of `c` is set.
pub open spec fn source_vector(c: u8) -> Seq<int> {
    let code = c as int % 128;
    signed_unit(
        64,
        code % 64,
        if code >= 64 {
            -1
        } else {
            1
        },
    )
}

/// `walsh_bit` is the sign of the inverse Walsh transform of the character's
/// source vector: 1 exactly where the transform is negative.
pub proof fn lemma_walsh_bit_is_transform_sign(c: u8, i: int)
    requires
        0 <= i < 64,
    ensures
        walsh_bit(c, i) == if inv_walsh(source_vector(c))[i] < 0 {
            1u8
        } else {
            0u8
        },
{
    reveal_with_fuel(pw, 7);
    let code = c as int % 128;
    lemma_inv_walsh_unit(
        6,
        code % 64,
        if code >= 64 {
            -1
        } else {
            1
        },
    );
}

/// Slot offset, in symbols, at which the interleaver reads carrier `i`: the
/// running sum of the pattern modulo the depth.
pub open spec fn intlv_offset(pat: Seq<i32>, depth: int, i: int) -> int
    decreases i,
{
    if i <= 0 {
        0
    } else {
        (intlv_offset(pat, depth, i - 1) + pat[i - 1]) % depth
    }
}

/// Symbols by which the interleaver delays carrier `i`.
pub open spec fn intlv_delay(intlv: Interleave, i: int) -> int {
    let depth = interleave_depth(intlv) as int;
    (depth - intlv_offset(interleave_pattern(intlv), depth, i)) % depth
}

/// Bit `i` that the encoder emits for the `n`-th character of `chars`: the
/// spread bit of the character `intlv_delay(intlv, i)` symbols earlier, or 0
/// while the zero-filled pipe drains.
pub open spec fn encoder_bit(chars: Seq<u8>, intlv: Interleave, n: int, i: int) -> u8 {
    let d = intlv_delay(intlv, i);
    if n >= d {
        walsh_bit(chars[n - d], i)
    } else {
        0
    }
}

/// What pipe cell (slot `s`, carrier `j`) holds once `sent` went through an
/// encoder of depth `depth`: the bit of the latest character written to that
/// slot, or 0 when none was.
pub open spec fn pipe_cell(sent: Seq<u8>, depth: int, s: int, j: int) -> u8 {
    let n = sent.len() as int;
    let m = n - 1 - ((n - 1 - s) % depth);
    if m >= 0 {
        walsh_bit(sent[m], j)
    } else {
        0
    }
}

proof fn lemma_pattern_bounds(intlv: Interleave)
    ensures
        interleave_pattern(intlv).len() == 64,
        forall|i: int|
            0 <= i < 64 ==> 0 <= #[trigger] interleave_pattern(intlv)[i] < interleave_depth(intlv),
{
    assert(forall|i: int| 0 <= i < 64 ==> 4 <= #[trigger] SHORT_INTLV_PATT@[i] < 8);
    assert(forall|i: int| 0 <= i < 64 ==> 0 <= #[trigger] LONG_INTLV_PATT@[i] < 64);
}

proof fn lemma_offset_bounds(pat: Seq<i32>, depth: int, i: int)
    requires
        depth > 0,
    ensures
        0 <= intlv_offset(pat, depth, i) < depth,
{
}

/// Adding `b` to `a`, both below `d`, wraps at most once.
proof fn lemma_add_wrap(a: int, b: int, d: int)
    requires
        0 <= a < d,
        0 <= b < d,
    ensures
        (a + b) % d == if a + b >= d {
            a + b - d
        } else {
            a + b
        },
{
    if a + b >= d {
        vstd::arithmetic::div_mod::lemma_fundamental_div_mod_converse(a + b, d, 1, a + b - d);
    } else {
        vstd::arithmetic::div_mod::lemma_fundamental_div_mod_converse(a + b, d, 0, a + b);
    }
}

/// Writing slot `n % d` at step `n` overwrites that slot and ages every other.
proof fn lemma_pipe_step(n: int, s: int, d: int)
    requires
        d > 0,
        n >= 0,
        0 <= s < d,
    ensures
        s == n % d ==> (n - s) % d == 0,
        s != n % d ==> (n - s) % d == (n - 1 - s) % d + 1,
{
    let q = n / d;
    let r = n % d;
    vstd::arithmetic::div_mod::lemma_fundamental_div_mod(n, d);
    if s == r {
        assert(n - s == q * d + 0) by (nonlinear_arith)
            requires
                n == d * q + r,
                s == r,
        ;
        vstd::arithmetic::div_mod::lemma_fundamental_div_mod_converse(n - s, d, q, 0);
    } else if s < r {
        assert(n - s == q * d + (r - s) && n - 1 - s == q * d + (r - s - 1)) by (nonlinear_arith)
            requires
                n == d * q + r,
        ;
        vstd::arithmetic::div_mod::lemma_fundamental_div_mod_converse(n - s, d, q, r - s);
        vstd::arithmetic::div_mod::lemma_fundamental_div_mod_converse(n - 1 - s, d, q, r - s - 1);
    } else {
        assert(n - s == (q - 1) * d + (d + r - s) && n - 1 - s == (q - 1) * d + (d + r - s - 1))
            by (nonlinear_arith)
            requires
                n == d * q + r,
        ;
        vstd::arithmetic::div_mod::lemma_fundamental_div_mod_converse(n - s, d, q - 1, d + r - s);
        vstd::arithmetic::div_mod::lemma_fundamental_div_mod_converse(
            n - 1 - s,
            d,
            q - 1,
            d + r - s - 1,
        );
    }
}

/// The slot read for a carrier at offset `off` was written `(d - off) % d`
/// steps earlier.
proof fn lemma_read_slot(n: int, off: int, d: int)
    requires
        d > 0,
        n >= 0,
        0 <= off < d,
    ensures
        (n - (n % d + off) % d) % d == (d - off) % d,
{
    let q = n / d;
    let r = n % d;
    vstd::arithmetic::div_mod::lemma_fundamental_div_mod(n, d);
    lemma_add_wrap(r, off, d);
    if off == 0 {
        vstd::arithmetic::div_mod::lemma_fundamental_div_mod_converse(d, d, 1, 0);
        assert(n - r == q * d + 0) by (nonlinear_arith)
            requires
                n == d * q + r,
        ;
        vstd::arithmetic::div_mod::lemma_fundamental_div_mod_converse(n - r, d, q, 0);
    } else {
        vstd::arithmetic::div_mod::lemma_fundamental_div_mod_converse(d - off, d, 0, d - off);
        if r + off >= d {
            assert(n - (r + off - d) == q * d + (d - off)) by (nonlinear_arith)
                requires
                    n == d * q + r,
            ;
            vstd::arithmetic::div_mod::lemma_fundamental_div_mod_converse(
                n - (r + off - d),
                d,
                q,
                d - off,
            );
        } else {
            assert(n - (r + off) == (q - 1) * d + (d - off)) by (nonlinear_arith)
                requires
                    n == d * q + r,
            ;
            vstd::arithmetic::div_mod::lemma_fundamental_div_mod_converse(
                n - (r + off),
                d,
                q - 1,
                d - off,
            );
        }
    }
}

/// The slot index advances by one, wrapping at the depth.
proof fn lemma_slot_succ(n: int, d: int)
    requires
        d > 0,
        n >= 0,
    ensures
        (n + 1) % d == if n % d + 1 == d {
            0
        } else {
            n % d + 1
        },
{
    let q = n / d;
    let r = n % d;
    vstd::arithmetic::div_mod::lemma_fundamental_div_mod(n, d);
    if r + 1 == d {
        assert(n + 1 == (q + 1) * d + 0) by (nonlinear_arith)
            requires
                n == d * q + r,
                r + 1 == d,
        ;
        vstd::arithmetic::div_mod::lemma_fundamental_div_mod_converse(n + 1, d, q + 1, 0);
    } else {
        assert(n + 1 == q * d + (r + 1)) by (nonlinear_arith)
            requires
                n == d * q + r,
        ;
        vstd::arithmetic::div_mod::lemma_fundamental_div_mod_converse(n + 1, d, q, r + 1);
    }
}

/// Spread bit of `c` on carrier `i`.
fn walsh_bit_of(c: u8, i: usize) -> (b: u8)
    requires
        i < 64,
    ensures
        b == walsh_bit(c, i as int),
{
    let code = c % 128;
    let mut k: u8 = code % 64;
    let mut j: usize = i;
    let mut flips: u8 = 0;
    let mut b: u8 = 0;
    while b < 6
        invariant
            b <= 6,
            flips <= b,
            flips + walsh_flips(k as int, j as int, (6 - b) as nat) == walsh_flips(
                (code % 64) as int,
                i as int,
                6,
            ),
        decreases 6 - b,
    {
        if k % 2 == 1 && j % 2 == 0 {
            flips = flips + 1;
        }
        k = k / 2;
        j = j / 2;
        b = b + 1;
    }
    if (flips % 2 == 1) != (code >= 64) {
        1
    } else {
        0
    }
}

/// The MT63 source encoder: a character is spread over the 64 carriers by an
/// inverse Walsh transform and block-interleaved over 32 or 64 past symbols.
/// Output bits: 1 = no phase flip, 0 = phase flip. The interleaver pipe starts
/// zero-filled.
pub struct Mt63Encoder {
    intlv_len: usize,
    intlv_size: usize,
    intlv_patt: [usize; 64],
    intlv_pipe: Vec<u8>,
    intlv_ptr: usize,
    intlv: Ghost<Interleave>,
    sent: Ghost<Seq<u8>>,
    /// Latest 64 output bits.
    pub output: [u8; 64],
}

impl Mt63Encoder {
    /// The interleave depth the encoder was made with.
    pub closed spec fn interleave(&self) -> Interleave {
        self.intlv@
    }

    /// The latest 64 output bits.
    pub closed spec fn latest(&self) -> Seq<u8> {
        self.output@
    }

    /// The characters encoded so far, oldest first.
    pub closed spec fn sent(&self) -> Seq<u8> {
        self.sent@
    }

    /// The pipe holds, per slot, the spread bits of the latest character
    /// written there; the write pointer is at the slot of the next character.
    pub closed spec fn wf(&self) -> bool {
        let depth = interleave_depth(self.intlv@) as int;
        &&& self.intlv_len == depth
        &&& self.intlv_size == depth * 64
        &&& self.intlv_pipe@.len() == self.intlv_size
        &&& forall|i: int|
            0 <= i < 64 ==> self.intlv_patt@[i] == #[trigger] intlv_offset(
                interleave_pattern(self.intlv@),
                depth,
                i,
            ) * 64
        &&& self.intlv_ptr == (self.sent@.len() as int % depth) * 64
        &&& forall|k: int|
            0 <= k < self.intlv_size ==> #[trigger] self.intlv_pipe@[k] == pipe_cell(
                self.sent@,
                depth,
                k / 64,
                k % 64,
            )
    }

    pub fn new(intlv: Interleave) -> (e: Self)
        ensures
            e.wf(),
            e.interleave() == intlv,
            e.sent() == Seq::<u8>::empty(),
    {
        let intlv_len = intlv.depth();
        let intlv_size = intlv_len * 64;
        let pattern = intlv.pattern();
        proof {
            lemma_pattern_bounds(intlv);
        }
        let mut intlv_patt = [0usize; 64];
        let mut p: i32 = 0;
        for i in 0..64
            invariant
                intlv_len == interleave_depth(intlv),
                pattern@ == interleave_pattern(intlv),
                forall|j: int| 0 <= j < 64 ==> 0 <= #[trigger] pattern@[j] < intlv_len,
                0 <= p < intlv_len,
                p == intlv_offset(pattern@, intlv_len as int, i as int),
                forall|j: int|
                    0 <= j < i ==> intlv_patt@[j] == #[trigger] intlv_offset(
                        pattern@,
                        intlv_len as int,
                        j,
                    ) * 64,
        {
            intlv_patt[i] = (p as usize) * 64;
            proof {
                lemma_add_wrap(p as int, pattern@[i as int] as int, intlv_len as int);
            }
            p = p + pattern[i];
            if p >= intlv_len as i32 {
                p = p - intlv_len as i32;
            }
        }
        let mut intlv_pipe: Vec<u8> = Vec::new();
        while intlv_pipe.len() < intlv_size
            invariant
                intlv_pipe.len() <= intlv_size,
                forall|k: int| 0 <= k < intlv_pipe.len() ==> #[trigger] intlv_pipe@[k] == 0,
            decreases intlv_size - intlv_pipe.len(),
        {
            intlv_pipe.push(0);
        }
        let e = Mt63Encoder {
            intlv_len,
            intlv_size,
            intlv_patt,
            intlv_pipe,
            intlv_ptr: 0,
            intlv: Ghost(intlv),
            sent: Ghost(Seq::<u8>::empty()),
            output: [0u8; 64],
        };
        assert forall|k: int| 0 <= k < e.intlv_size implies #[trigger] e.intlv_pipe@[k]
            == pipe_cell(e.sent@, intlv_len as int, k / 64, k % 64) by {
            assert(0 <= (-1 - k / 64) % (intlv_len as int));
        }
        e
    }

    /// Encode one character; returns the 64 output bits, also kept in
    /// `output`.
    pub fn process(&mut self, code: u8) -> (r: [u8; 64])
        requires
            old(self).wf(),
        ensures
            final(self).wf(),
            final(self).interleave() == old(self).interleave(),
            final(self).sent() == old(self).sent().push(code),
            final(self).latest() == r@,
            forall|i: int|
                0 <= i < 64 ==> r@[i] == #[trigger] encoder_bit(
                    final(self).sent(),
                    old(self).interleave(),
                    old(self).sent().len() as int,
                    i,
                ),
    {
        let ghost n = self.sent@.len() as int;
        let ghost depth = self.intlv_len as int;
        let ghost old_pipe = self.intlv_pipe@;
        let ghost sent2 = self.sent@.push(code);
        let ptr = self.intlv_ptr;
        let size = self.intlv_size;
        assert(n % depth < depth);
        assert(ptr + 64 <= size) by (nonlinear_arith)
            requires
                ptr == (n % depth) * 64,
                n % depth < depth,
                size == depth * 64,
        ;
        let mut pipe: Vec<u8> = Vec::new();
        std::mem::swap(&mut pipe, &mut self.intlv_pipe);
        for i in 0..64
            invariant
                pipe@.len() == old_pipe.len(),
                old_pipe.len() == size,
                ptr + 64 <= size,
                forall|k: int|
                    0 <= k < size ==> #[trigger] pipe@[k] == if ptr <= k < ptr + i {
                        walsh_bit(code, k - ptr)
                    } else {
                        old_pipe[k]
                    },
        {
            let b = walsh_bit_of(code, i);
            pipe.set(ptr + i, b);
        }
        proof {
            assert forall|k: int| 0 <= k < size implies #[trigger] pipe@[k] == pipe_cell(
                sent2,
                depth,
                k / 64,
                k % 64,
            ) by {
                let s = k / 64;
                assert(0 <= s < depth);
                lemma_pipe_step(n, s, depth);
                if ptr <= k < ptr + 64 {
                    assert(s == n % depth);
                } else {
                    assert(s != n % depth);
                    assert(old_pipe[k] == pipe_cell(self.sent@, depth, k / 64, k % 64));
                }
            }
        }
        let mut out = [0u8; 64];
        for i in 0..64
            invariant
                pipe@.len() == size,
                size == depth * 64,
                ptr == (n % depth) * 64,
                depth == interleave_depth(self.intlv@),
                n >= 0,
                sent2.len() == n + 1,
                forall|j: int|
                    0 <= j < 64 ==> self.intlv_patt@[j] == #[trigger] intlv_offset(
                        interleave_pattern(self.intlv@),
                        depth,
                        j,
                    ) * 64,
                forall|k: int|
                    0 <= k < size ==> #[trigger] pipe@[k] == pipe_cell(sent2, depth, k / 64, k % 64),
                forall|j: int|
                    0 <= j < i ==> out@[j] == #[trigger] encoder_bit(sent2, self.intlv@, n, j),
        {
            let ghost off = intlv_offset(interleave_pattern(self.intlv@), depth, i as int);
            proof {
                lemma_offset_bounds(interleave_pattern(self.intlv@), depth, i as int);
                lemma_add_wrap(n % depth, off, depth);
                lemma_read_slot(n, off, depth);
            }
            let mut k = ptr + self.intlv_patt[i];
            if k >= size {
                k = k - size;
            }
            let ghost t = (n % depth + off) % depth;
            assert(k == t * 64);
            assert(k + i < size);
            proof {
                vstd::arithmetic::div_mod::lemma_fundamental_div_mod_converse(
                    (k + i) as int,
                    64,
                    t,
                    i as int,
                );
            }
            assert(pipe@[k + i] == pipe_cell(sent2, depth, t, i as int));
            assert(pipe_cell(sent2, depth, t, i as int) == encoder_bit(sent2, self.intlv@, n, i as int));
            out[i] = pipe[k + i];
        }
        self.intlv_pipe = pipe;
        self.sent = Ghost(sent2);
        let mut next = ptr + 64;
        if next >= size {
            next = next - size;
        }
        proof {
            lemma_slot_succ(n, depth);
        }
        self.intlv_ptr = next;
        self.output = out;
        out
    }
}

// ---- per-carrier phase-index accumulation ----------------------------------

/// Initial phase index of carrier `i`: the triangular number `i(i+1)/2` modulo
/// the FFT size.
pub open spec fn tx_init_phase(i: int) -> int
    decreases i,
{
    if i <= 0 {
        0
    } else {
        (tx_init_phase(i - 1) + i) % (FFT_SIZE as int)
    }
}

/// Per-symbol phase advance of carrier `i` when the first data carrier sits at
/// FFT bin `first`: the symbol separation times the carrier's bin, modulo the
/// FFT size.
pub open spec fn phase_corr(first: int, i: int) -> int {
    (SYMBOL_SEPAR as int * (first + DATA_CARR_SEPAR as int * i)) % (FFT_SIZE as int)
}

/// Phase index of carrier `i` after `k` symbols of `chars`: each symbol adds the
/// carrier's advance, and half a turn more where the encoder bit is 0.
pub open spec fn tx_phase(first: int, intlv: Interleave, chars: Seq<u8>, k: int, i: int) -> int
    decreases k,
{
    if k <= 0 {
        tx_init_phase(i)
    } else {
        (tx_phase(first, intlv, chars, k - 1, i) + phase_corr(first, i) + if encoder_bit(
            chars,
            intlv,
            k - 1,
            i,
        ) == 0 {
            (FFT_SIZE / 2) as int
        } else {
            0int
        }) % (FFT_SIZE as int)
    }
}

/// A transmit phase index is always in `0..512`, and the phase after `k`
/// symbols depends only on the first `k` characters sent: appending more
/// characters never changes it.
pub proof fn lemma_tx_phase_prefix(
    first: int,
    intlv: Interleave,
    a: Seq<u8>,
    b: Seq<u8>,
    k: int,
    i: int,
)
    requires
        0 <= k <= a.len(),
    ensures
        0 <= tx_phase(first, intlv, a, k, i) < FFT_SIZE,
        tx_phase(first, intlv, a + b, k, i) == tx_phase(first, intlv, a, k, i),
    decreases k,
{
    if k <= 0 {
        lemma_tx_init_phase_range(i);
    } else {
        lemma_tx_phase_prefix(first, intlv, a, b, k - 1, i);
        let d = intlv_delay(intlv, i);
        assert(d >= 0);
        if k - 1 >= d {
            assert((a + b)[k - 1 - d] == a[k - 1 - d]);
        }
        assert(encoder_bit(a + b, intlv, k - 1, i) == encoder_bit(a, intlv, k - 1, i));
    }
}

proof fn lemma_tx_init_phase_range(i: int)
    ensures
        0 <= tx_init_phase(i) < FFT_SIZE,
    decreases i,
{
    if i > 0 {
        lemma_tx_init_phase_range(i - 1);
    }
}

/// The initial phase indices and per-symbol advances of the 64 carriers.
#[verifier::spinoff_prover]
fn phase_init(geo: &Mt63Geometry) -> (r: ([i32; 64], [i32; 64]))
    requires
        i32::MIN <= SYMBOL_SEPAR * geo.first_data_carr <= i32::MAX,
    ensures
        forall|i: int| 0 <= i < 64 ==> #[trigger] r.0@[i] == tx_init_phase(i),
        forall|i: int| 0 <= i < 64 ==> #[trigger] r.1@[i] == phase_corr(geo.first_data_carr as int, i),
{
    let mut tx_vect = [0i32; 64];
    let mut corr = [0i32; 64];
    let mut step: i32 = 0;
    let mut p: i32 = 0;
    for i in 0..64
        invariant
            0 <= p < 512,
            p == tx_init_phase(i as int),
            step == i,
            forall|j: int| 0 <= j < i ==> #[trigger] tx_vect@[j] == tx_init_phase(j),
    {
        tx_vect[i] = p;
        step = step + 1;
        p = (p + step) % 512;
    }
    let ghost f = geo.first_data_carr as int;
    let base: i32 = (SYMBOL_SEPAR as i32) * geo.first_data_carr;
    let mut p: i32 = base % 512;
    if p < 0 {
        p = p + 512;
    }
    proof {
        vstd::arithmetic::div_mod::lemma_fundamental_div_mod(base as int, 512);
        assert(p == (base as int) % 512) by {
            let q = if base % 512 < 0 {
                base / 512 - 1
            } else {
                base / 512
            };
            assert(base as int == q * 512 + p);
            vstd::arithmetic::div_mod::lemma_fundamental_div_mod_converse(base as int, 512, q, p as int);
        }
    }
    let incr: i32 = ((SYMBOL_SEPAR * DATA_CARR_SEPAR) % 512) as i32;
    for i in 0..64
        invariant
            0 <= p < 512,
            incr == 288,
            f == geo.first_data_carr,
            p == phase_corr(f, i as int),
            forall|j: int| 0 <= j < 64 ==> #[trigger] tx_vect@[j] == tx_init_phase(j),
            forall|j: int| 0 <= j < i ==> #[trigger] corr@[j] == phase_corr(f, j),
    {
        corr[i] = p;
        proof {
            vstd::arithmetic::div_mod::lemma_add_mod_noop(200 * (f + 4 * i), 800, 512);
            assert(200 * (f + 4 * (i + 1)) == 200 * (f + 4 * i) + 800);
        }
        p = (p + incr) % 512;
    }
    (tx_vect, corr)
}

/// The per-symbol phase-index vectors (each index in `0..512`) that a character
/// stream puts on the 64 carriers, one vector per character.
pub fn tx_phase_indices(geo: &Mt63Geometry, intlv: Interleave, chars: &[u8]) -> (r: Vec<
    [i32; 64],
>)
    requires
        i32::MIN <= SYMBOL_SEPAR * geo.first_data_carr <= i32::MAX,
    ensures
        r.len() == chars.len(),
        forall|n: int, i: int|
            0 <= n < r.len() && 0 <= i < 64 ==> #[trigger] r@[n]@[i] == tx_phase(
                geo.first_data_carr as int,
                intlv,
                chars@,
                n + 1,
                i,
            ),
{
    let ghost f = geo.first_data_carr as int;
    let (mut tx_vect, corr) = phase_init(geo);
    let mut enc = Mt63Encoder::new(intlv);
    let mut out: Vec<[i32; 64]> = Vec::new();
    let mut n: usize = 0;
    while n < chars.len()
        invariant
            n <= chars.len(),
            enc.wf(),
            enc.interleave() == intlv,
            enc.sent() == chars@.take(n as int),
            out.len() == n,
            forall|m: int, i: int|
                0 <= m < n && 0 <= i < 64 ==> #[trigger] out@[m]@[i] == tx_phase(
                    f,
                    intlv,
                    chars@,
                    m + 1,
                    i,
                ),
            forall|i: int| 0 <= i < 64 ==> #[trigger] tx_vect@[i] == tx_phase(f, intlv, chars@, n as int, i),
            forall|i: int| 0 <= i < 64 ==> #[trigger] corr@[i] == phase_corr(f, i),
        decreases chars.len() - n,
    {
        let ch = chars[n];
        let bits = enc.process(ch);
        assert(chars@.take(n as int).push(ch) == chars@.take(n as int + 1));
        let ghost before = tx_vect@;
        for i in 0..64
            invariant
                forall|j: int| 0 <= j < 64 ==> #[trigger] corr@[j] == phase_corr(f, j),
                forall|j: int|
                    0 <= j < 64 ==> bits@[j] == #[trigger] encoder_bit(
                        chars@.take(n as int + 1),
                        intlv,
                        n as int,
                        j,
                    ),
                forall|j: int| 0 <= j < 64 ==> #[trigger] before[j] == tx_phase(f, intlv, chars@, n as int, j),
                forall|j: int|
                    0 <= j < 64 ==> #[trigger] tx_vect@[j] == if j < i {
                        tx_phase(f, intlv, chars@, n as int + 1, j)
                    } else {
                        before[j] as int
                    },
                n < chars.len(),
        {
            let ghost d = intlv_delay(intlv, i as int);
            proof {
                lemma_offset_bounds(
                    interleave_pattern(intlv),
                    interleave_depth(intlv) as int,
                    i as int,
                );
                assert(encoder_bit(chars@.take(n as int + 1), intlv, n as int, i as int)
                    == encoder_bit(chars@, intlv, n as int, i as int));
            }
            let c = corr[i];
            let t = tx_vect[i];
            if bits[i] != 0 {
                tx_vect[i] = (t + c) % 512;
            } else {
                tx_vect[i] = (t + c + 256) % 512;
            }
        }
        out.push(tx_vect);
        n = n + 1;
    }
    out
}

} // verus!
