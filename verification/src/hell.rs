//! Feld Hell: the submodes, and the raster of 14-pixel columns a message is
//! sent as.
use vstd::prelude::*;
use crate::text::{label_key, str_eq};

verus! {

/// Pixels per column (the font height).
pub const COLUMN_ROWS: usize = 14;

/// Sample rate of every Hell submode.
pub const SAMPLE_RATE: u32 = 8000;

/// The Feld Hell submodes.
#[derive(Debug, Clone, Copy, PartialEq, Eq)]
pub enum HellVariant {
    FeldHell,
    SlowHell,
    HellX5,
    HellX9,
    Hell80,
}

/// The label naming each variant.
pub open spec fn hell_label(v: HellVariant) -> Seq<char> {
    match v {
        HellVariant::FeldHell => "feldhell"@,
        HellVariant::SlowHell => "slowhell"@,
        HellVariant::HellX5 => "hellx5"@,
        HellVariant::HellX9 => "hellx9"@,
        HellVariant::Hell80 => "hell80"@,
    }
}

/// The variant a label names.
pub open spec fn hell_of_label(s: Seq<char>) -> Option<HellVariant> {
    if s == "feldhell"@ {
        Some(HellVariant::FeldHell)
    } else if s == "slowhell"@ {
        Some(HellVariant::SlowHell)
    } else if s == "hellx5"@ {
        Some(HellVariant::HellX5)
    } else if s == "hellx9"@ {
        Some(HellVariant::HellX9)
    } else if s == "hell80"@ {
        Some(HellVariant::Hell80)
    } else {
        None
    }
}

impl HellVariant {
    pub fn samplerate(self) -> (r: u32)
        ensures
            r == SAMPLE_RATE,
    {
        SAMPLE_RATE
    }

    pub fn from_label(s: &str) -> (r: Option<HellVariant>)
        ensures
            r == hell_of_label(s@),
    {
        if str_eq(s, "feldhell") {
            Some(HellVariant::FeldHell)
        } else if str_eq(s, "slowhell") {
            Some(HellVariant::SlowHell)
        } else if str_eq(s, "hellx5") {
            Some(HellVariant::HellX5)
        } else if str_eq(s, "hellx9") {
            Some(HellVariant::HellX9)
        } else if str_eq(s, "hell80") {
            Some(HellVariant::Hell80)
        } else {
            None
        }
    }

    pub fn label(self) -> (r: &'static str)
        ensures
            r@ == hell_label(self),
    {
        match self {
            HellVariant::FeldHell => "feldhell",
            HellVariant::SlowHell => "slowhell",
            HellVariant::HellX5 => "hellx5",
            HellVariant::HellX9 => "hellx9",
            HellVariant::Hell80 => "hell80",
        }
    }

    /// Every submode.
    pub fn all() -> (r: &'static [HellVariant])
        ensures
            r@ == seq![HellVariant::FeldHell, HellVariant::SlowHell, HellVariant::HellX5, HellVariant::HellX9, HellVariant::Hell80],
    {
        &[HellVariant::FeldHell, HellVariant::SlowHell, HellVariant::HellX5, HellVariant::HellX9, HellVariant::Hell80]
    }
}

/// Every variant's label parses back to that variant.
pub proof fn lemma_hell_labels_round_trip(v: HellVariant)
    ensures
        hell_of_label(hell_label(v)) == Some(v),
{
    reveal_strlit("feldhell");
    reveal_strlit("slowhell");
    reveal_strlit("hellx5");
    reveal_strlit("hellx9");
    reveal_strlit("hell80");
    assert(label_key("feldhell"@) == (8int, 'f', 'l', 'l', 'e', 'h', 'd'));
    assert(label_key("slowhell"@) == (8int, 's', 'l', 'l', 'e', 'h', 'w'));
    assert(label_key("hellx5"@) == (6int, 'h', '5', 'x', 'l', 'l', 'e'));
    assert(label_key("hellx9"@) == (6int, 'h', '9', 'x', 'l', 'l', 'e'));
    assert(label_key("hell80"@) == (6int, 'h', '0', '8', 'l', 'l', 'e'));
}

/// The pixel stream of a column raster: column `k / 14`, row `k % 14` (row 0,
/// the low bit, first) is on when that bit is set.
pub open spec fn pixel_stream(cols: Seq<u16>) -> Seq<bool> {
    Seq::new(
        (cols.len() * 14) as nat,
        |k: int| ((cols[k / 14] >> ((k % 14) as u16)) & 1) == 1,
    )
}

/// The flat pixel-symbol stream for a column raster: each 14-bit column
/// expands to 14 on/off symbols, row 0 (LSB) first.
pub fn column_pixels(cols: &[u16]) -> (px: Vec<bool>)
    requires
        cols@.len() * 14 <= usize::MAX,
    ensures
        px@ == pixel_stream(cols@),
{
    let mut px: Vec<bool> = Vec::with_capacity(cols.len() * COLUMN_ROWS);
    for i in 0..cols.len()
        invariant
            cols@.len() * 14 <= usize::MAX,
            px@.len() == 14 * i,
            forall|k: int| 0 <= k < px@.len() ==> #[trigger] px@[k] == pixel_stream(cols@)[k],
    {
        let c = cols[i];
        for row in 0..COLUMN_ROWS
            invariant
                cols@.len() * 14 <= usize::MAX,
                i < cols@.len(),
                c == cols@[i as int],
                px@.len() == 14 * i + row,
                forall|k: int| 0 <= k < px@.len() ==> #[trigger] px@[k] == pixel_stream(cols@)[k],
        {
            px.push((c >> row) & 1 == 1);
            proof {
                let k = 14 * i + row;
                assert(k / 14 == i && k % 14 == row) by (nonlinear_arith)
                    requires
                        k == 14 * i + row,
                        row < 14,
                ;
            }
        }
    }
    assert(px@ =~= pixel_stream(cols@));
    px
}

/// The column value of a 14-byte raster row read up to row `r`: bit `j` is
/// set where byte `j` is above 127.
pub open spec fn column_value(g: Seq<u8>, r: int) -> u16
    decreases r,
{
    if r <= 0 {
        0
    } else {
        column_value(g, r - 1) | (if g[r - 1] > 127 {
            1u16 << ((r - 1) as u16)
        } else {
            0u16
        })
    }
}

/// The columns of a raster: one per complete 14-byte row.
pub open spec fn raster_columns(gray: Seq<u8>) -> Seq<u16> {
    Seq::new(
        (gray.len() / 14) as nat,
        |i: int| column_value(gray.subrange(14 * i, 14 * i + 14), 14),
    )
}

/// Reconstruct the 14-bit column values from a Hell raster (the inverse of
/// `column_pixels`): each 14-byte row is one column, byte `r` above 127 sets
/// bit `r`. A trailing partial row is ignored.
pub fn image_columns(width: u16, gray: &[u8]) -> (r: Vec<u16>)
    requires
        width == 14,
    ensures
        r@ == raster_columns(gray@),
{
    let n = gray.len() / COLUMN_ROWS;
    let mut out: Vec<u16> = Vec::with_capacity(n);
    let mut i: usize = 0;
    while i < n
        invariant
            i <= n,
            n == gray@.len() / 14,
            gray@.len() == gray.len(),
            out@ == raster_columns(gray@).take(i as int),
        decreases n - i,
    {
        assert(i * 14 + 14 <= gray@.len()) by (nonlinear_arith)
            requires
                i < n,
                n == gray@.len() / 14,
        ;
        let base: usize = i * 14;
        let ghost row = gray@.subrange(base as int, base + 14);
        let mut c: u16 = 0;
        let mut r: usize = 0;
        while r < COLUMN_ROWS
            invariant
                r <= 14,
                base + 14 <= gray@.len(),
                gray@.len() == gray.len(),
                row == gray@.subrange(base as int, base + 14),
                c == column_value(row, r as int),
            decreases 14 - r,
        {
            if gray[base + r] > 127 {
                c = c | (1u16 << (r as u16));
            } else {
                assert(c == (c | 0u16)) by (bit_vector);
            }
            r = r + 1;
        }
        out.push(c);
        assert(out@ =~= raster_columns(gray@).take(i + 1));
        i = i + 1;
    }
    assert(out@ =~= raster_columns(gray@));
    out
}

proof fn lemma_column_bit(c: u16, r: u16)
    requires
        r < 14,
    ensures
        ((c >> r) & 1) == 1 ==> (c & (1u16 << r)) == (1u16 << r),
        ((c >> r) & 1) != 1 ==> (c & (1u16 << r)) == 0,
{
    assert(((c >> r) & 1) == 1 ==> (c & (1u16 << r)) == (1u16 << r)) by (bit_vector)
        requires
            r < 14,
    ;
    assert(((c >> r) & 1) != 1 ==> (c & (1u16 << r)) == 0) by (bit_vector)
        requires
            r < 14,
    ;
}

proof fn lemma_mask_step(c: u16, k: u16)
    requires
        1 <= k <= 14,
    ensures
        ((c & (((1u16 << ((k - 1) as u16)) - 1) as u16)) | (c & (1u16 << ((k - 1) as u16)))) == (c
            & (((1u16 << k) - 1) as u16)),
{
    assert(((c & (((1u16 << ((k - 1) as u16)) - 1) as u16)) | (c & (1u16 << ((k - 1) as u16))))
        == (c & (((1u16 << k) - 1) as u16))) by (bit_vector)
        requires
            1 <= k <= 14,
    ;
}

proof fn lemma_column_value_of_pixels(c: u16, g: Seq<u8>, k: int)
    requires
        0 <= k <= 14,
        g.len() == 14,
        forall|r: int| 0 <= r < 14 ==> (#[trigger] g[r] > 127) == (((c >> (r as u16)) & 1) == 1),
    ensures
        column_value(g, k) == (c & (((1u16 << (k as u16)) - 1) as u16)),
    decreases k,
{
    if k == 0 {
        assert((c & (((1u16 << 0u16) - 1) as u16)) == 0) by (bit_vector);
    } else {
        lemma_column_value_of_pixels(c, g, k - 1);
        lemma_column_bit(c, (k - 1) as u16);
        lemma_mask_step(c, k as u16);
        assert(g[k - 1] > 127 <==> ((c >> ((k - 1) as u16)) & 1) == 1);
    }
}

/// Reading back a raster of on/off pixels (255/0) recovers every 14-bit
/// column: `image_columns` inverts `column_pixels`.
pub proof fn lemma_image_columns_inverts_column_pixels(cols: Seq<u16>)
    requires
        forall|i: int| 0 <= i < cols.len() ==> #[trigger] cols[i] < 16384,
    ensures
        raster_columns(pixel_stream(cols).map_values(|b: bool| if b { 255u8 } else { 0u8 }))
            == cols,
{
    let g = pixel_stream(cols).map_values(|b: bool| if b { 255u8 } else { 0u8 });
    assert(g.len() / 14 == cols.len()) by (nonlinear_arith)
        requires
            g.len() == cols.len() * 14,
    ;
    assert forall|i: int| 0 <= i < cols.len() implies #[trigger] raster_columns(g)[i] == cols[i] by {
        let c = cols[i];
        let row = g.subrange(14 * i, 14 * i + 14);
        assert(14 * i + 14 <= g.len()) by (nonlinear_arith)
            requires
                0 <= i < cols.len(),
                g.len() == cols.len() * 14,
        ;
        assert forall|r: int| 0 <= r < 14 implies (#[trigger] row[r] > 127) == (((c >> (r as u16))
            & 1) == 1) by {
            assert((14 * i + r) / 14 == i && (14 * i + r) % 14 == r) by (nonlinear_arith)
                requires
                    0 <= r < 14,
            ;
        }
        lemma_column_value_of_pixels(c, row, 14);
        assert((c & (((1u16 << 14u16) - 1) as u16)) == c) by (bit_vector)
            requires
                c < 16384,
        ;
    }
    assert(raster_columns(g) =~= cols);
}

} // verus!
