//! Incremental frequency keying (IFK): each symbol advances the transmitted
//! tone by `sym + offset` modulo the tone count, and the receiver recovers the
//! symbol by differencing successive tones. IFKP and FSQ use 33 tones with
//! offset 1; DominoEX uses 18 tones with offset 2.
use vstd::prelude::*;

verus! {

/// The number of IFK tones IFKP and FSQ use.
pub const NUMTONES: u32 = 33;

/// The tone sequence for a symbol stream over `m` tones: each tone is the
/// previous one (starting from 0) plus the symbol plus `offset`, modulo `m`.
pub open spec fn ifk_chain(syms: Seq<u8>, offset: int, m: int) -> Seq<int>
    decreases syms.len(),
{
    if syms.len() == 0 {
        Seq::empty()
    } else {
        let prev = ifk_chain(syms.drop_last(), offset, m);
        prev.push((ifk_last(prev) + syms.last() + offset) % m)
    }
}

/// The last tone of a sequence, or the starting tone 0.
pub open spec fn ifk_last(t: Seq<int>) -> int {
    if t.len() == 0 {
        0
    } else {
        t.last()
    }
}

pub proof fn lemma_ifk_chain(syms: Seq<u8>, offset: int, m: int, k: int)
    requires
        m > 0,
        0 <= k < syms.len(),
    ensures
        ifk_chain(syms, offset, m).len() == syms.len(),
        ifk_chain(syms, offset, m)[k] == (ifk_last(ifk_chain(syms.take(k), offset, m)) + syms[k]
            + offset) % m,
        ifk_chain(syms.take(k + 1), offset, m) == ifk_chain(syms, offset, m).take(k + 1),
        0 <= ifk_chain(syms, offset, m)[k] < m,
    decreases syms.len(),
{
    lemma_ifk_chain_len(syms, offset, m);
    if k < syms.len() - 1 {
        lemma_ifk_chain(syms.drop_last(), offset, m, k);
        assert(syms.drop_last().take(k) =~= syms.take(k));
        assert(syms.drop_last().take(k + 1) =~= syms.take(k + 1));
        assert(ifk_chain(syms, offset, m).take(k + 1) =~= ifk_chain(syms.drop_last(), offset, m).take(
            k + 1,
        ));
    } else {
        assert(syms.take(k + 1) =~= syms);
        assert(syms.drop_last() =~= syms.take(k));
        assert(ifk_chain(syms, offset, m).take(k + 1) =~= ifk_chain(syms, offset, m));
    }
}

pub proof fn lemma_ifk_chain_len(syms: Seq<u8>, offset: int, m: int)
    ensures
        ifk_chain(syms, offset, m).len() == syms.len(),
    decreases syms.len(),
{
    if syms.len() > 0 {
        lemma_ifk_chain_len(syms.drop_last(), offset, m);
    }
}

/// The tone before position `k`: the seed 0, or the tone at `k - 1`.
pub open spec fn ifk_prev(t: Seq<int>, k: int) -> int {
    if k == 0 {
        0
    } else {
        t[k - 1]
    }
}

/// Advance one IFK tone: `tone = (prev + sym + offset) % NUMTONES`.
pub fn advance(prev: u32, sym: u8, offset: u32) -> (r: u32)
    requires
        prev + sym + offset <= u32::MAX,
    ensures
        r == (prev + sym + offset) % 33,
{
    (prev + sym as u32 + offset) % NUMTONES
}

/// Invert the IFK advance: `sym = (tone - prev - offset) mod NUMTONES`.
pub fn invert(prev: u32, tone: u32, offset: u32) -> (r: u8)
    requires
        tone + 2 * 33 <= u32::MAX,
        prev + offset <= tone + 2 * 33,
    ensures
        r == (tone + 2 * 33 - prev - offset) % 33,
{
    ((tone + 2 * NUMTONES - prev - offset) % NUMTONES) as u8
}

/// Whether no step of the IFK chain overflows a `u32`.
pub open spec fn ifk_fits(syms: Seq<u8>, offset: int, m: int) -> bool {
    forall|k: int|
        0 <= k < syms.len() ==> ifk_prev(ifk_chain(syms, offset, m), k) + #[trigger] syms[k] + offset
            <= u32::MAX
}

/// The absolute IFK tone-index sequence for a symbol stream, seeded
/// `prev = 0`.
pub fn syms_to_tones(syms: &[u8], offset: u32) -> (r: Vec<u32>)
    requires
        ifk_fits(syms@, offset as int, 33),
    ensures
        r@.map_values(|t: u32| t as int) == ifk_chain(syms@, offset as int, 33),
{
    let mut out: Vec<u32> = Vec::with_capacity(syms.len());
    let mut prev: u32 = 0;
    for i in 0..syms.len()
        invariant
            ifk_fits(syms@, offset as int, 33),
            out@.map_values(|t: u32| t as int) == ifk_chain(syms@.take(i as int), offset as int, 33),
            prev == ifk_last(ifk_chain(syms@.take(i as int), offset as int, 33)),
    {
        proof {
            lemma_ifk_chain(syms@, offset as int, 33, i as int);
            if i > 0 {
                lemma_ifk_chain(syms@, offset as int, 33, i - 1);
                assert(ifk_chain(syms@.take(i as int), offset as int, 33) =~= ifk_chain(
                    syms@,
                    offset as int,
                    33,
                ).take(i as int));
            }
            assert(ifk_prev(ifk_chain(syms@, offset as int, 33), i as int) == prev);
        }
        let t = advance(prev, syms[i], offset);
        out.push(t);
        prev = t;
        proof {
            assert(out@.map_values(|t: u32| t as int) =~= ifk_chain(
                syms@.take(i + 1),
                offset as int,
                33,
            ));
        }
    }
    proof {
        assert(syms@.take(syms@.len() as int) =~= syms@);
    }
    out
}

/// Differencing recovers a symbol: from the tone before and the tone after a
/// step, `(tone + 2m - prev - offset) mod m` is the symbol modulo `m`.
pub proof fn lemma_invert_recovers_symbol(prev: int, sym: int, offset: int, m: int)
    requires
        m > 0,
        0 <= prev < m,
        0 <= offset <= m,
        0 <= sym,
    ensures
        ((prev + sym + offset) % m + 2 * m - prev - offset) % m == sym % m,
{
    let q = (prev + sym + offset) / m;
    vstd::arithmetic::div_mod::lemma_fundamental_div_mod(prev + sym + offset, m);
    let t = (prev + sym + offset) % m;
    assert(t + 2 * m - prev - offset == m * (2 - q) + sym) by (nonlinear_arith)
        requires
            prev + sym + offset == m * q + t,
    ;
    vstd::arithmetic::div_mod::lemma_mod_multiples_vanish(2 - q, sym, m);
}

/// A receiver that differences the tones of [`ifk_chain`] gets every symbol
/// back, modulo the tone count.
pub proof fn lemma_ifk_chain_invertible(syms: Seq<u8>, offset: int, m: int, k: int)
    requires
        m > 0,
        0 <= offset <= m,
        0 <= k < syms.len(),
    ensures
        (ifk_chain(syms, offset, m)[k] + 2 * m - ifk_prev(ifk_chain(syms, offset, m), k) - offset)
            % m == (syms[k] as int) % m,
{
    lemma_ifk_chain(syms, offset, m, k);
    let t = ifk_chain(syms, offset, m);
    if k > 0 {
        lemma_ifk_chain(syms, offset, m, k - 1);
        assert(ifk_chain(syms.take(k), offset, m) =~= t.take(k));
    } else {
        assert(syms.take(0) =~= Seq::<u8>::empty());
    }
    assert(ifk_last(ifk_chain(syms.take(k), offset, m)) == ifk_prev(t, k));
    lemma_invert_recovers_symbol(ifk_prev(t, k), syms[k] as int, offset, m);
}

} // verus!
