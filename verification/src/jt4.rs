//! JT4: 4-FSK with a K=32 r=1/2 convolutional code and a 72-bit message,
//! submodes A–G differing only in tone spacing. Channel symbols are
//! `tone(i) = 2*data(i) + npr(i+1)`: the interleaved code bit is the MSB, the
//! fixed pseudo-random sync bit the LSB.
use vstd::prelude::*;
use crate::text::{label_key, str_eq};

verus! {

pub const JT4_RATE: u32 = 12000;

/// Samples per symbol: 12000/4.375, truncated.
pub const JT4_SPS: usize = 2742;

pub const JT4_TONES: u32 = 4;

/// Message bits.
pub const MSG_BITS: usize = 72;

/// Channel symbols: (72 data + 31 tail) × 2 code bits.
pub const JT4_SYMBOLS: usize = 206;

/// The pseudo-random sync vector `npr` (207 values; the on-air sync is
/// `npr[1..]`).
pub const NPR: [u8; 207] = [
    0, 0, 0, 0, 1, 1, 0, 0, 0, 1, 1, 0, 1, 1, 0, 0, 1, 0, 1, 0, 0, 0, 0, 0, 0, 0, 1, 1, 0, 0,
    0, 0, 0, 0, 0, 0, 0, 0, 0, 0, 1, 0, 1, 1, 0, 1, 1, 0, 1, 0, 1, 1, 1, 1, 1, 0, 1, 0, 0, 0,
    1, 0, 0, 1, 0, 0, 1, 1, 1, 1, 1, 0, 0, 0, 1, 0, 1, 0, 0, 0, 1, 1, 1, 1, 0, 1, 1, 0, 0, 1,
    0, 0, 0, 1, 1, 0, 1, 0, 1, 0, 1, 0, 1, 0, 1, 1, 1, 1, 1, 0, 1, 0, 1, 0, 1, 1, 0, 1, 0, 1,
    0, 1, 1, 1, 0, 0, 1, 0, 1, 1, 0, 1, 1, 1, 1, 0, 0, 0, 0, 1, 1, 0, 1, 1, 0, 0, 0, 1, 1, 1,
    0, 1, 1, 1, 0, 1, 1, 1, 0, 0, 1, 0, 0, 0, 1, 1, 0, 1, 1, 0, 0, 1, 0, 0, 0, 1, 1, 1, 1, 1,
    1, 0, 0, 1, 1, 0, 0, 0, 0, 1, 1, 0, 0, 0, 1, 0, 1, 1, 0, 1, 1, 1, 1, 0, 1, 0, 1,
];

/// JT4 submodes A–G. They share the bit-domain pipeline and differ only in
/// tone spacing = keying rate × `nch`.
#[derive(Debug, Clone, Copy, PartialEq, Eq)]
pub enum Jt4Submode {
    A,
    B,
    C,
    D,
    E,
    F,
    G,
}

/// The label naming each variant.
pub open spec fn jt4_label(v: Jt4Submode) -> Seq<char> {
    match v {
        Jt4Submode::A => "jt4a"@,
        Jt4Submode::B => "jt4b"@,
        Jt4Submode::C => "jt4c"@,
        Jt4Submode::D => "jt4d"@,
        Jt4Submode::E => "jt4e"@,
        Jt4Submode::F => "jt4f"@,
        Jt4Submode::G => "jt4g"@,
    }
}

/// The variant a label names.
pub open spec fn jt4_of_label(s: Seq<char>) -> Option<Jt4Submode> {
    if s == "jt4a"@ {
        Some(Jt4Submode::A)
    } else if s == "jt4b"@ {
        Some(Jt4Submode::B)
    } else if s == "jt4c"@ {
        Some(Jt4Submode::C)
    } else if s == "jt4d"@ {
        Some(Jt4Submode::D)
    } else if s == "jt4e"@ {
        Some(Jt4Submode::E)
    } else if s == "jt4f"@ {
        Some(Jt4Submode::F)
    } else if s == "jt4g"@ {
        Some(Jt4Submode::G)
    } else {
        None
    }
}

/// The tone-spacing multiplier of each submode.
pub open spec fn jt4_nch(v: Jt4Submode) -> u32 {
    match v {
        Jt4Submode::A => 1,
        Jt4Submode::B => 2,
        Jt4Submode::C => 4,
        Jt4Submode::D => 9,
        Jt4Submode::E => 18,
        Jt4Submode::F => 36,
        Jt4Submode::G => 72,
    }
}

impl Jt4Submode {
    pub const ALL: [Jt4Submode; 7] = [
        Jt4Submode::A,
        Jt4Submode::B,
        Jt4Submode::C,
        Jt4Submode::D,
        Jt4Submode::E,
        Jt4Submode::F,
        Jt4Submode::G,
    ];

    /// Tone-spacing multiplier `nch`.
    pub fn nch(self) -> (r: u32)
        ensures
            r == jt4_nch(self),
    {
        match self {
            Jt4Submode::A => 1,
            Jt4Submode::B => 2,
            Jt4Submode::C => 4,
            Jt4Submode::D => 9,
            Jt4Submode::E => 18,
            Jt4Submode::F => 36,
            Jt4Submode::G => 72,
        }
    }

    pub fn from_label(s: &str) -> (r: Option<Jt4Submode>)
        ensures
            r == jt4_of_label(s@),
    {
        if str_eq(s, "jt4a") {
            Some(Jt4Submode::A)
        } else if str_eq(s, "jt4b") {
            Some(Jt4Submode::B)
        } else if str_eq(s, "jt4c") {
            Some(Jt4Submode::C)
        } else if str_eq(s, "jt4d") {
            Some(Jt4Submode::D)
        } else if str_eq(s, "jt4e") {
            Some(Jt4Submode::E)
        } else if str_eq(s, "jt4f") {
            Some(Jt4Submode::F)
        } else if str_eq(s, "jt4g") {
            Some(Jt4Submode::G)
        } else {
            None
        }
    }

    pub fn label(self) -> (r: &'static str)
        ensures
            r@ == jt4_label(self),
    {
        match self {
            Jt4Submode::A => "jt4a",
            Jt4Submode::B => "jt4b",
            Jt4Submode::C => "jt4c",
            Jt4Submode::D => "jt4d",
            Jt4Submode::E => "jt4e",
            Jt4Submode::F => "jt4f",
            Jt4Submode::G => "jt4g",
        }
    }

}

/// Every variant's label parses back to that variant.
pub proof fn lemma_jt4_labels_round_trip(v: Jt4Submode)
    ensures
        jt4_of_label(jt4_label(v)) == Some(v),
{
    reveal_strlit("jt4a");
    reveal_strlit("jt4b");
    reveal_strlit("jt4c");
    reveal_strlit("jt4d");
    reveal_strlit("jt4e");
    reveal_strlit("jt4f");
    reveal_strlit("jt4g");
    assert(label_key("jt4a"@) == (4int, 'j', 'a', '4', 't', 'j', 'j'));
    assert(label_key("jt4b"@) == (4int, 'j', 'b', '4', 't', 'j', 'j'));
    assert(label_key("jt4c"@) == (4int, 'j', 'c', '4', 't', 'j', 'j'));
    assert(label_key("jt4d"@) == (4int, 'j', 'd', '4', 't', 'j', 'j'));
    assert(label_key("jt4e"@) == (4int, 'j', 'e', '4', 't', 'j', 'j'));
    assert(label_key("jt4f"@) == (4int, 'j', 'f', '4', 't', 'j', 'j'));
    assert(label_key("jt4g"@) == (4int, 'j', 'g', '4', 't', 'j', 'j'));
}

/// On-air sync bits: `npr[1..]`, one LSB per channel symbol.
pub fn sync_bits() -> (r: Vec<u8>)
    ensures
        r@ == NPR@.skip(1),
{
    let npr = NPR;
    let mut v: Vec<u8> = Vec::with_capacity(JT4_SYMBOLS);
    for i in 1..207
        invariant
            npr@ == NPR@,
            v@ == NPR@.subrange(1, i as int),
    {
        v.push(npr[i]);
        assert(v@ =~= NPR@.subrange(1, i + 1));
    }
    assert(v@ =~= NPR@.skip(1));
    v
}

/// The 8-bit bit reversal of the low byte of `i`.
pub open spec fn rev8(i: u32) -> u32 {
    ((i & 1) << 7) | ((i & 2) << 5) | ((i & 4) << 3) | ((i & 8) << 1) | ((i & 16) >> 1) | ((i
        & 32) >> 3) | ((i & 64) >> 5) | ((i & 128) >> 7)
}

/// The interleave values from sources `0..m`: the bit reversal of each
/// source, kept when it is below 206, in ascending source order.
pub open spec fn interleave_prefix(m: int) -> Seq<int>
    decreases m,
{
    if m <= 0 {
        Seq::empty()
    } else if rev8((m - 1) as u32) < 206 {
        interleave_prefix(m - 1).push(rev8((m - 1) as u32) as int)
    } else {
        interleave_prefix(m - 1)
    }
}

proof fn lemma_rev8(i: u32)
    requires
        i < 256,
    ensures
        rev8(i) < 256,
        rev8(rev8(i)) == i,
{
    assert(rev8(i) < 256) by (bit_vector)
        requires
            i < 256,
    ;
    assert(rev8(rev8(i)) == i) by (bit_vector)
        requires
            i < 256,
    ;
}

proof fn lemma_interleave_prefix(m: int)
    requires
        0 <= m <= 256,
    ensures
        forall|k: int|
            0 <= k < interleave_prefix(m).len() ==> #[trigger] interleave_prefix(m)[k] < 206 && exists|
                i: int,
            |
                0 <= i < m && interleave_prefix(m)[k] == #[trigger] rev8(i as u32),
        forall|j: int, k: int|
            0 <= j < k < interleave_prefix(m).len() ==> #[trigger] interleave_prefix(m)[j]
                != #[trigger] interleave_prefix(m)[k],
        forall|i: int|
            0 <= i < m && #[trigger] rev8(i as u32) < 206 ==> interleave_prefix(m).contains(
                rev8(i as u32) as int,
            ),
    decreases m,
{
    if m > 0 {
        lemma_interleave_prefix(m - 1);
        let p = interleave_prefix(m - 1);
        let x = rev8((m - 1) as u32) as int;
        if x < 206 {
            let q = p.push(x);
            assert(interleave_prefix(m) == q);
            assert forall|j: int| 0 <= j < p.len() implies #[trigger] p[j] != x by {
                let i = choose|i: int| 0 <= i < m - 1 && p[j] == #[trigger] rev8(i as u32);
                lemma_rev8(i as u32);
                lemma_rev8((m - 1) as u32);
            }
            assert forall|k: int| 0 <= k < q.len() implies #[trigger] q[k] < 206 && exists|i: int|
                0 <= i < m && q[k] == #[trigger] rev8(i as u32) by {
                if k < p.len() {
                    assert(q[k] == p[k]);
                } else {
                    assert(q[k] == rev8((m - 1) as u32) as int);
                }
            }
            assert forall|i: int| 0 <= i < m && #[trigger] rev8(i as u32) < 206 implies q.contains(
                rev8(i as u32) as int,
            ) by {
                if i < m - 1 {
                    let k = choose|k: int| 0 <= k < p.len() && #[trigger] p[k] == rev8(i as u32) as int;
                    assert(q[k] == p[k]);
                } else {
                    assert(q[q.len() - 1] == x);
                }
            }
        }
    }
}

/// The JT4 interleave permutation: the 8-bit bit reversal of `0..255`,
/// keeping only values below 206, in ascending source order. Forward
/// interleave places code bit `i` at position `j0[i]`.
pub open spec fn interleave_perm() -> Seq<int> {
    interleave_prefix(256)
}

/// The interleave is a permutation of `0..206`: 206 distinct positions, each
/// below 206, every position taken.
pub proof fn lemma_interleave_is_permutation()
    ensures
        interleave_perm().len() == 206,
        forall|k: int| 0 <= k < 206 ==> #[trigger] interleave_perm()[k] < 206,
        forall|j: int, k: int|
            0 <= j < k < 206 ==> #[trigger] interleave_perm()[j] != #[trigger] interleave_perm()[k],
        forall|v: int| 0 <= v < 206 ==> interleave_perm().contains(v),
{
    lemma_interleave_prefix(256);
    let s = interleave_perm();
    assert forall|v: int| 0 <= v < 206 implies s.contains(v) by {
        lemma_rev8(v as u32);
        assert(rev8(rev8(v as u32)) == v);
    }
    assert(s.no_duplicates()) by {
        assert forall|j: int, k: int| 0 <= j < s.len() && 0 <= k < s.len() && j != k implies s[j]
            != s[k] by {
            if j < k {
                assert(s[j] != s[k]);
            } else {
                assert(s[k] != s[j]);
            }
        }
    }
    s.unique_seq_to_set();
    vstd::set_lib::lemma_int_range(0, 206);
    assert(s.to_set().subset_of(vstd::set_lib::set_int_range(0, 206)));
    vstd::set_lib::lemma_len_subset(s.to_set(), vstd::set_lib::set_int_range(0, 206));
    assert(vstd::set_lib::set_int_range(0, 206).subset_of(s.to_set()));
    vstd::seq_lib::seq_to_set_is_finite(s);
    vstd::set_lib::lemma_len_subset(vstd::set_lib::set_int_range(0, 206), s.to_set());
}

pub fn interleave_table() -> (j0: [usize; 206])
    ensures
        forall|k: int| 0 <= k < 206 ==> j0@[k] as int == interleave_perm()[k],
{
    proof {
        lemma_interleave_is_permutation();
        lemma_interleave_prefix(256);
    }
    let mut j0 = [0usize; 206];
    let mut k: usize = 0;
    let mut i: u32 = 0;
    while i < 256
        invariant
            i <= 256,
            k == interleave_prefix(i as int).len(),
            interleave_prefix(256).len() == 206,
            forall|t: int| 0 <= t < k ==> j0@[t] as int == interleave_prefix(i as int)[t],
            j0@.len() == 206,
        decreases 256 - i,
    {
        proof {
            lemma_prefix_len_mono(i as int + 1, 256);
        }
        let n = ((i & 1) << 7) | ((i & 2) << 5) | ((i & 4) << 3) | ((i & 8) << 1) | ((i & 16) >> 1)
            | ((i & 32) >> 3) | ((i & 64) >> 5) | ((i & 128) >> 7);
        assert(n == rev8(i)) by (bit_vector)
            requires
                n == ((i & 1) << 7) | ((i & 2) << 5) | ((i & 4) << 3) | ((i & 8) << 1) | ((i & 16)
                    >> 1) | ((i & 32) >> 3) | ((i & 64) >> 5) | ((i & 128) >> 7),
        ;
        if n < 206 {
            j0[k] = n as usize;
            k = k + 1;
        }
        i = i + 1;
    }
    assert(interleave_prefix(256).len() == 206);
    j0
}

proof fn lemma_prefix_len_mono(a: int, b: int)
    requires
        0 <= a <= b,
    ensures
        interleave_prefix(a).len() <= interleave_prefix(b).len(),
    decreases b - a,
{
    if a < b {
        lemma_prefix_len_mono(a, b - 1);
    }
}


/// Interleave the 206 convolutional code bits of a message for transmission:
/// code bit `i` goes to position `j0[i]` of the interleave table. Every
/// position is written, since the table is a permutation.
pub fn interleave_code_bits(coded: &[u8; 206]) -> (out: [u8; 206])
    ensures
        forall|i: int| 0 <= i < 206 ==> out@[#[trigger] interleave_perm()[i]] == coded@[i],
{
    let j0 = interleave_table();
    proof {
        lemma_interleave_is_permutation();
    }
    let mut out = [0u8; 206];
    for i in 0..206
        invariant
            forall|k: int| 0 <= k < 206 ==> j0@[k] as int == interleave_perm()[k],
            forall|k: int| 0 <= k < 206 ==> #[trigger] interleave_perm()[k] < 206,
            forall|j: int, k: int|
                0 <= j < k < 206 ==> #[trigger] interleave_perm()[j] != #[trigger] interleave_perm()[k],
            forall|k: int| 0 <= k < i ==> out@[#[trigger] interleave_perm()[k]] == coded@[k],
    {
        let pos = j0[i];
        assert(interleave_perm()[i as int] < 206);
        out[pos] = coded[i];
    }
    out
}

} // verus!
