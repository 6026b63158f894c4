//! Limb-wise evaluation of one arithmetic-equation column for the bn254
//! complex subtraction identity `y1 - y2 - y3 + p*q2 - p*offset`, with
//! `offset = 8`, over 16 chunks of 16 bits.
//!
//! Column `icol` of the identity is the coefficient of `2^(16*icol)` when
//! the operands are combined limb by limb without carry propagation: the
//! difference of the `y` limbs, plus the convolution column of `p * q2`,
//! minus the matching chunk of the constant `p * 8`.

use vstd::prelude::*;

verus! {

/// The 16-bit little-endian chunks of the bn254 base-field prime `p`.
pub open spec fn p_chunk(i: int) -> int {
    if i == 0 {
        0xFD47
    } else if i == 1 {
        0xD87C
    } else if i == 2 {
        0x8C16
    } else if i == 3 {
        0x3C20
    } else if i == 4 {
        0xCA8D
    } else if i == 5 {
        0x6871
    } else if i == 6 {
        0x6A91
    } else if i == 7 {
        0x9781
    } else if i == 8 {
        0x585D
    } else if i == 9 {
        0x8181
    } else if i == 10 {
        0x45B6
    } else if i == 11 {
        0xB850
    } else if i == 12 {
        0xA029
    } else if i == 13 {
        0xE131
    } else if i == 14 {
        0x4E72
    } else if i == 15 {
        0x3064
    } else {
        0
    }
}

/// The 16-bit little-endian chunks of the constant `p * 8`.
pub open spec fn pq_chunk(i: int) -> int {
    if i == 0 {
        0xEA38
    } else if i == 1 {
        0xC3E7
    } else if i == 2 {
        0x60B6
    } else if i == 3 {
        0xE104
    } else if i == 4 {
        0x5469
    } else if i == 5 {
        0x438E
    } else if i == 6 {
        0x548B
    } else if i == 7 {
        0xBC0B
    } else if i == 8 {
        0xC2EC
    } else if i == 9 {
        0xC0A
    } else if i == 10 {
        0x2DB4
    } else if i == 11 {
        0xC282
    } else if i == 12 {
        0x14D
    } else if i == 13 {
        0x98D
    } else if i == 14 {
        0x7397
    } else if i == 15 {
        0x8322
    } else if i == 16 {
        0x1
    } else {
        0
    }
}

/// The first `j` terms of the convolution column `icol` of `p * q2`:
/// the sum over `t < j` of `p_chunk(icol - t) * q2[t]`.
pub open spec fn conv(q2: Seq<i64>, icol: int, j: int) -> int
    decreases j,
{
    if j <= 0 {
        0
    } else {
        conv(q2, icol, j - 1) + p_chunk(icol - (j - 1)) * q2[j - 1]
    }
}

/// Column `icol` of `y1 - y2 - y3 + p*q2 - p*8` over 16-bit limbs.
/// Columns past the last one carrying a coefficient are zero.
pub open spec fn eq_col(icol: int, y1: Seq<i64>, y2: Seq<i64>, y3: Seq<i64>, q2: Seq<i64>) -> int {
    if icol > 30 {
        0
    } else {
        (if 0 <= icol < 16 {
            y1[icol] - y2[icol] - y3[icol]
        } else {
            0
        }) + conv(q2, icol, 16) - (if 0 <= icol <= 16 {
            pq_chunk(icol)
        } else {
            0
        })
    }
}

/// Every `q2` limb is small enough that a full convolution column of
/// sixteen products with 16-bit coefficients stays far inside 64 bits.
pub open spec fn q_limbs_bounded(s: Seq<i64>) -> bool {
    forall|i: int| 0 <= i < s.len() ==> -0x100_0000_0000 <= #[trigger] s[i] <= 0x100_0000_0000
}

/// Every `y` limb is small enough that the difference of three of them,
/// on top of a full convolution column, stays inside 64 bits.
pub open spec fn y_limbs_bounded(s: Seq<i64>) -> bool {
    forall|i: int| 0 <= i < s.len() ==> -0x4000_0000_0000 <= #[trigger] s[i] <= 0x4000_0000_0000
}

/// Columns past the last coefficient-bearing one are zero, whatever the
/// operands hold.
pub proof fn lemma_columns_past_end_zero(
    icol: int,
    y1: Seq<i64>,
    y2: Seq<i64>,
    y3: Seq<i64>,
    q2: Seq<i64>,
)
    requires
        icol > 30,
    ensures
        eq_col(icol, y1, y2, y3, q2) == 0,
{
}

/// Columns sixteen and beyond depend on `q2` alone: the `y` operands do
/// not enter them.
pub proof fn lemma_high_columns_ignore_y(
    icol: int,
    y1a: Seq<i64>,
    y2a: Seq<i64>,
    y3a: Seq<i64>,
    y1b: Seq<i64>,
    y2b: Seq<i64>,
    y3b: Seq<i64>,
    q2: Seq<i64>,
)
    requires
        icol >= 16,
    ensures
        eq_col(icol, y1a, y2a, y3a, q2) == eq_col(icol, y1b, y2b, y3b, q2),
{
}

/// Shifting `y1` and `y2` by the same per-limb offset leaves every column
/// unchanged: only the difference `y1 - y2` enters the result.
pub proof fn lemma_shift_invariance(
    icol: int,
    y1: Seq<i64>,
    y2: Seq<i64>,
    y1p: Seq<i64>,
    y2p: Seq<i64>,
    y3: Seq<i64>,
    q2: Seq<i64>,
    d: Seq<int>,
)
    requires
        forall|i: int| 0 <= i < 16 ==> #[trigger] y1p[i] == y1[i] + d[i],
        forall|i: int| 0 <= i < 16 ==> #[trigger] y2p[i] == y2[i] + d[i],
    ensures
        eq_col(icol, y1p, y2p, y3, q2) == eq_col(icol, y1, y2, y3, q2),
{
    if 0 <= icol < 16 {
        assert(y1p[icol] - y2p[icol] == y1[icol] - y2[icol]);
    }
}

/// The bn254 complex subtraction identity, one column at a time.
pub struct Bn254ComplexSubY3 {}

/// Columns zero to seven: the `y` difference, the convolution terms and
/// the constant chunk.  Split from the later columns to keep each proof
/// inside the resource limit.
#[verifier::rlimit(100)]
fn column_up_to_7(icol: u8, y1: &[i64; 16], y2: &[i64; 16], y3: &[i64; 16], q2: &[i64; 16]) -> (r:
    i64)
    requires
        icol <= 7,
        q_limbs_bounded(q2@),
        y_limbs_bounded(y1@),
        y_limbs_bounded(y2@),
        y_limbs_bounded(y3@),
    ensures
        r == eq_col(icol as int, y1@, y2@, y3@, q2@),
{
    proof {
        reveal_with_fuel(conv, 17);
    }
    match icol {
        0 => y1[0] - y2[0] - y3[0] + 0xFD47 * q2[0] - 0xEA38,
        1 => y1[1] - y2[1] - y3[1] + 0xD87C * q2[0] + 0xFD47 * q2[1] - 0xC3E7,
        2 => y1[2] - y2[2] - y3[2] + 0x8C16 * q2[0] + 0xD87C * q2[1] + 0xFD47 * q2[2] - 0x60B6,
        3 => y1[3] - y2[3] - y3[3] + 0x3C20 * q2[0] + 0x8C16 * q2[1] + 0xD87C * q2[2] + 0xFD47 * q2[3] - 0xE104,
        4 => y1[4] - y2[4] - y3[4] + 0xCA8D * q2[0] + 0x3C20 * q2[1] + 0x8C16 * q2[2] + 0xD87C * q2[3] + 0xFD47 * q2[4] - 0x5469,
        5 => y1[5] - y2[5] - y3[5] + 0x6871 * q2[0] + 0xCA8D * q2[1] + 0x3C20 * q2[2] + 0x8C16 * q2[3] + 0xD87C * q2[4] + 0xFD47 * q2[5] - 0x438E,
        6 => y1[6] - y2[6] - y3[6] + 0x6A91 * q2[0] + 0x6871 * q2[1] + 0xCA8D * q2[2] + 0x3C20 * q2[3] + 0x8C16 * q2[4] + 0xD87C * q2[5] + 0xFD47 * q2[6] - 0x548B,
        _ => y1[7] - y2[7] - y3[7] + 0x9781 * q2[0] + 0x6A91 * q2[1] + 0x6871 * q2[2] + 0xCA8D * q2[3] + 0x3C20 * q2[4] + 0x8C16 * q2[5] + 0xD87C * q2[6] + 0xFD47 * q2[7] - 0xBC0B,
    }
}

/// Columns eight to fifteen: as above, with longer convolution columns.
#[verifier::rlimit(100)]
fn column_8_to_15(icol: u8, y1: &[i64; 16], y2: &[i64; 16], y3: &[i64; 16], q2: &[i64; 16]) -> (r:
    i64)
    requires
        8 <= icol <= 15,
        q_limbs_bounded(q2@),
        y_limbs_bounded(y1@),
        y_limbs_bounded(y2@),
        y_limbs_bounded(y3@),
    ensures
        r == eq_col(icol as int, y1@, y2@, y3@, q2@),
{
    proof {
        reveal_with_fuel(conv, 17);
    }
    match icol {
        8 => y1[8] - y2[8] - y3[8] + 0x585D * q2[0] + 0x9781 * q2[1] + 0x6A91 * q2[2] + 0x6871 * q2[3] + 0xCA8D * q2[4] + 0x3C20 * q2[5] + 0x8C16 * q2[6] + 0xD87C * q2[7] + 0xFD47 * q2[8] - 0xC2EC,
        9 => y1[9] - y2[9] - y3[9] + 0x8181 * q2[0] + 0x585D * q2[1] + 0x9781 * q2[2] + 0x6A91 * q2[3] + 0x6871 * q2[4] + 0xCA8D * q2[5] + 0x3C20 * q2[6] + 0x8C16 * q2[7] + 0xD87C * q2[8] + 0xFD47 * q2[9] - 0xC0A,
        10 => y1[10] - y2[10] - y3[10] + 0x45B6 * q2[0] + 0x8181 * q2[1] + 0x585D * q2[2] + 0x9781 * q2[3] + 0x6A91 * q2[4] + 0x6871 * q2[5] + 0xCA8D * q2[6] + 0x3C20 * q2[7] + 0x8C16 * q2[8] + 0xD87C * q2[9] + 0xFD47 * q2[10] - 0x2DB4,
        11 => y1[11] - y2[11] - y3[11] + 0xB850 * q2[0] + 0x45B6 * q2[1] + 0x8181 * q2[2] + 0x585D * q2[3] + 0x9781 * q2[4] + 0x6A91 * q2[5] + 0x6871 * q2[6] + 0xCA8D * q2[7] + 0x3C20 * q2[8] + 0x8C16 * q2[9] + 0xD87C * q2[10] + 0xFD47 * q2[11] - 0xC282,
        12 => y1[12] - y2[12] - y3[12] + 0xA029 * q2[0] + 0xB850 * q2[1] + 0x45B6 * q2[2] + 0x8181 * q2[3] + 0x585D * q2[4] + 0x9781 * q2[5] + 0x6A91 * q2[6] + 0x6871 * q2[7] + 0xCA8D * q2[8] + 0x3C20 * q2[9] + 0x8C16 * q2[10] + 0xD87C * q2[11] + 0xFD47 * q2[12] - 0x14D,
        13 => y1[13] - y2[13] - y3[13] + 0xE131 * q2[0] + 0xA029 * q2[1] + 0xB850 * q2[2] + 0x45B6 * q2[3] + 0x8181 * q2[4] + 0x585D * q2[5] + 0x9781 * q2[6] + 0x6A91 * q2[7] + 0x6871 * q2[8] + 0xCA8D * q2[9] + 0x3C20 * q2[10] + 0x8C16 * q2[11] + 0xD87C * q2[12] + 0xFD47 * q2[13] - 0x98D,
        14 => y1[14] - y2[14] - y3[14] + 0x4E72 * q2[0] + 0xE131 * q2[1] + 0xA029 * q2[2] + 0xB850 * q2[3] + 0x45B6 * q2[4] + 0x8181 * q2[5] + 0x585D * q2[6] + 0x9781 * q2[7] + 0x6A91 * q2[8] + 0x6871 * q2[9] + 0xCA8D * q2[10] + 0x3C20 * q2[11] + 0x8C16 * q2[12] + 0xD87C * q2[13] + 0xFD47 * q2[14] - 0x7397,
        _ => y1[15] - y2[15] - y3[15] + 0x3064 * q2[0] + 0x4E72 * q2[1] + 0xE131 * q2[2] + 0xA029 * q2[3] + 0xB850 * q2[4] + 0x45B6 * q2[5] + 0x8181 * q2[6] + 0x585D * q2[7] + 0x9781 * q2[8] + 0x6A91 * q2[9] + 0x6871 * q2[10] + 0xCA8D * q2[11] + 0x3C20 * q2[12] + 0x8C16 * q2[13] + 0xD87C * q2[14] + 0xFD47 * q2[15] - 0x8322,
    }
}

/// Columns sixteen to thirty: convolution terms alone — the `y` operands
/// do not enter these columns.
#[verifier::rlimit(100)]
fn high_column(icol: u8, q2: &[i64; 16]) -> (r: i64)
    requires
        16 <= icol <= 30,
        q_limbs_bounded(q2@),
    ensures
        r == eq_col(icol as int, Seq::<i64>::empty(), Seq::<i64>::empty(), Seq::<i64>::empty(), q2@),
{
    proof {
        reveal_with_fuel(conv, 17);
    }
    match icol {
        16 => 0x3064 * q2[1] + 0x4E72 * q2[2] + 0xE131 * q2[3] + 0xA029 * q2[4] + 0xB850 * q2[5] + 0x45B6 * q2[6] + 0x8181 * q2[7] + 0x585D * q2[8] + 0x9781 * q2[9] + 0x6A91 * q2[10] + 0x6871 * q2[11] + 0xCA8D * q2[12] + 0x3C20 * q2[13] + 0x8C16 * q2[14] + 0xD87C * q2[15] - 0x1,
        17 => 0x3064 * q2[2] + 0x4E72 * q2[3] + 0xE131 * q2[4] + 0xA029 * q2[5] + 0xB850 * q2[6] + 0x45B6 * q2[7] + 0x8181 * q2[8] + 0x585D * q2[9] + 0x9781 * q2[10] + 0x6A91 * q2[11] + 0x6871 * q2[12] + 0xCA8D * q2[13] + 0x3C20 * q2[14] + 0x8C16 * q2[15],
        18 => 0x3064 * q2[3] + 0x4E72 * q2[4] + 0xE131 * q2[5] + 0xA029 * q2[6] + 0xB850 * q2[7] + 0x45B6 * q2[8] + 0x8181 * q2[9] + 0x585D * q2[10] + 0x9781 * q2[11] + 0x6A91 * q2[12] + 0x6871 * q2[13] + 0xCA8D * q2[14] + 0x3C20 * q2[15],
        19 => 0x3064 * q2[4] + 0x4E72 * q2[5] + 0xE131 * q2[6] + 0xA029 * q2[7] + 0xB850 * q2[8] + 0x45B6 * q2[9] + 0x8181 * q2[10] + 0x585D * q2[11] + 0x9781 * q2[12] + 0x6A91 * q2[13] + 0x6871 * q2[14] + 0xCA8D * q2[15],
        20 => 0x3064 * q2[5] + 0x4E72 * q2[6] + 0xE131 * q2[7] + 0xA029 * q2[8] + 0xB850 * q2[9] + 0x45B6 * q2[10] + 0x8181 * q2[11] + 0x585D * q2[12] + 0x9781 * q2[13] + 0x6A91 * q2[14] + 0x6871 * q2[15],
        21 => 0x3064 * q2[6] + 0x4E72 * q2[7] + 0xE131 * q2[8] + 0xA029 * q2[9] + 0xB850 * q2[10] + 0x45B6 * q2[11] + 0x8181 * q2[12] + 0x585D * q2[13] + 0x9781 * q2[14] + 0x6A91 * q2[15],
        22 => 0x3064 * q2[7] + 0x4E72 * q2[8] + 0xE131 * q2[9] + 0xA029 * q2[10] + 0xB850 * q2[11] + 0x45B6 * q2[12] + 0x8181 * q2[13] + 0x585D * q2[14] + 0x9781 * q2[15],
        23 => 0x3064 * q2[8] + 0x4E72 * q2[9] + 0xE131 * q2[10] + 0xA029 * q2[11] + 0xB850 * q2[12] + 0x45B6 * q2[13] + 0x8181 * q2[14] + 0x585D * q2[15],
        24 => 0x3064 * q2[9] + 0x4E72 * q2[10] + 0xE131 * q2[11] + 0xA029 * q2[12] + 0xB850 * q2[13] + 0x45B6 * q2[14] + 0x8181 * q2[15],
        25 => 0x3064 * q2[10] + 0x4E72 * q2[11] + 0xE131 * q2[12] + 0xA029 * q2[13] + 0xB850 * q2[14] + 0x45B6 * q2[15],
        26 => 0x3064 * q2[11] + 0x4E72 * q2[12] + 0xE131 * q2[13] + 0xA029 * q2[14] + 0xB850 * q2[15],
        27 => 0x3064 * q2[12] + 0x4E72 * q2[13] + 0xE131 * q2[14] + 0xA029 * q2[15],
        28 => 0x3064 * q2[13] + 0x4E72 * q2[14] + 0xE131 * q2[15],
        29 => 0x3064 * q2[14] + 0x4E72 * q2[15],
        _ => 0x3064 * q2[15],
    }
}

impl Bn254ComplexSubY3 {
    /// Evaluates column `icol` of `y1 - y2 - y3 + p*q2 - p*8` over the
    /// given 16-bit limb decompositions.
    ///
    /// Only the columns that do arithmetic constrain their operands:
    /// columns past thirty take any input, and columns sixteen to thirty
    /// leave the `y` operands unconstrained, since they never read them.
    pub fn calculate(
        icol: u8,
        y1: &[i64; 16],
        y2: &[i64; 16],
        y3: &[i64; 16],
        q2: &[i64; 16],
    ) -> (r: i64)
        requires
            icol <= 30 ==> q_limbs_bounded(q2@),
            icol <= 15 ==> y_limbs_bounded(y1@) && y_limbs_bounded(y2@) && y_limbs_bounded(y3@),
        ensures
            r == eq_col(icol as int, y1@, y2@, y3@, q2@),
    {
        if icol > 30 {
            return 0;
        }
        if icol >= 16 {
            let r = high_column(icol, q2);
            proof {
                lemma_high_columns_ignore_y(
                    icol as int,
                    Seq::<i64>::empty(),
                    Seq::<i64>::empty(),
                    Seq::<i64>::empty(),
                    y1@,
                    y2@,
                    y3@,
                    q2@,
                );
            }
            return r;
        }
        if icol <= 7 {
            column_up_to_7(icol, y1, y2, y3, q2)
        } else {
            column_8_to_15(icol, y1, y2, y3, q2)
        }
    }
}

} // verus!
