use zisk_core::equations::Bn254ComplexSubY3;

fn calc_all(y1: &[i64; 16], y2: &[i64; 16], y3: &[i64; 16], q2: &[i64; 16]) -> Vec<i64> {
    let mut out: Vec<i64> = Vec::new();
    let mut icol: u8 = 0;
    while icol < 32 {
        out.push(Bn254ComplexSubY3::calculate(icol, y1, y2, y3, q2));
        icol += 1;
    }
    out
}

#[test]
fn calculate_column_zero() {
    let mut y1 = [0i64; 16];
    let mut y2 = [0i64; 16];
    let mut y3 = [0i64; 16];
    let mut q2 = [0i64; 16];
    y1[0] = 5;
    y2[0] = 2;
    y3[0] = 1;
    q2[0] = 3;
    // 5 - 2 - 1 + 0xFD47 * 3 - 0xEA38
    assert_eq!(Bn254ComplexSubY3::calculate(0, &y1, &y2, &y3, &q2), 134559);
}

#[test]
fn calculate_zero_inputs_gives_negated_constant() {
    let z = [0i64; 16];
    // 0 - 0 - 0 + 0 - 0xEA38
    assert_eq!(Bn254ComplexSubY3::calculate(0, &z, &z, &z, &z), -0xEA38);
}

#[test]
fn calculate_last_column_single_product() {
    let z = [0i64; 16];
    let mut q2 = [0i64; 16];
    q2[15] = 7;
    // 0x3064 * 7
    assert_eq!(Bn254ComplexSubY3::calculate(30, &z, &z, &z, &q2), 86716);
}

#[test]
fn calculate_column_past_last_is_zero() {
    let mut y1 = [9i64; 16];
    let mut q2 = [4i64; 16];
    y1[3] = -17;
    q2[8] = 100;
    let z = [0i64; 16];
    assert_eq!(Bn254ComplexSubY3::calculate(31, &y1, &z, &z, &q2), 0);
    assert_eq!(Bn254ComplexSubY3::calculate(255, &y1, &z, &z, &q2), 0);
}

#[test]
fn calculate_column_sixteen_drops_y_terms() {
    let z = [0i64; 16];
    let mut q2 = [0i64; 16];
    q2[1] = 1;
    // 0x3064 * 1 - 0x1
    assert_eq!(Bn254ComplexSubY3::calculate(16, &z, &z, &z, &q2), 12387);
}

#[test]
fn calculate_patterned_inputs_match_convolution() {
    let mut y1 = [0i64; 16];
    let mut y2 = [0i64; 16];
    let mut y3 = [0i64; 16];
    let mut q2 = [0i64; 16];
    let mut i: usize = 0;
    while i < 16 {
        y1[i] = 3 * (i as i64) + 1;
        y2[i] = (i as i64) % 5;
        y3[i] = 2 * (i as i64);
        q2[i] = (i as i64) + 1;
        i += 1;
    }
    let all = calc_all(&y1, &y2, &y3, &q2);
    assert_eq!(all[0], 4880);
    assert_eq!(all[7], 1531621);
    assert_eq!(all[15], 5221090);
    assert_eq!(all[16], 4720473);
    assert_eq!(all[23], 3160930);
    assert_eq!(all[30], 198208);
    assert_eq!(all[31], 0);
}

#[test]
fn calculate_wide_limbs_low_columns() {
    // The widest limbs the contract admits on the low columns:
    // |y| up to 2^46 and |q2| up to 2^40, with no overflow.
    let y1 = [1i64 << 46; 16];
    let y2 = [-(1i64 << 46); 16];
    let y3 = [1i64 << 46; 16];
    let q2 = [1i64 << 40; 16];
    assert_eq!(
        Bn254ComplexSubY3::calculate(0, &y1, &y2, &y3, &q2),
        71361603177485768
    );
    assert_eq!(
        Bn254ComplexSubY3::calculate(15, &y1, &y2, &y3, &q2),
        624695227902295262
    );
}

#[test]
fn calculate_high_columns_take_any_y() {
    // Columns sixteen to thirty never read the y operands, so even
    // extreme y limbs are fine there.
    let huge = [i64::MAX; 16];
    let tiny = [i64::MIN; 16];
    let q2 = [1i64 << 40; 16];
    let z = [0i64; 16];
    assert_eq!(
        Bn254ComplexSubY3::calculate(20, &huge, &tiny, &huge, &q2),
        Bn254ComplexSubY3::calculate(20, &z, &z, &z, &q2)
    );
    assert_eq!(
        Bn254ComplexSubY3::calculate(20, &z, &z, &z, &q2),
        379031344908337152
    );
}

#[test]
fn calculate_past_end_takes_any_input() {
    // Columns past thirty do no arithmetic at all: any operands give 0.
    let huge = [i64::MAX; 16];
    let tiny = [i64::MIN; 16];
    assert_eq!(Bn254ComplexSubY3::calculate(31, &huge, &tiny, &huge, &tiny), 0);
    assert_eq!(Bn254ComplexSubY3::calculate(200, &tiny, &huge, &tiny, &huge), 0);
}

#[test]
fn calculate_shift_invariance() {
    // Adding the same per-limb offset to y1 and y2 leaves every column
    // unchanged: only their difference enters the result.
    let mut y1 = [0i64; 16];
    let mut y2 = [0i64; 16];
    let mut y3 = [0i64; 16];
    let mut q2 = [0i64; 16];
    let mut y1p = [0i64; 16];
    let mut y2p = [0i64; 16];
    let mut i: usize = 0;
    while i < 16 {
        y1[i] = 1000 - 3 * (i as i64);
        y2[i] = 40 * (i as i64);
        y3[i] = 7 * (i as i64) - 20;
        q2[i] = (i as i64) * (i as i64);
        let d = 500_000 + 11 * (i as i64);
        y1p[i] = y1[i] + d;
        y2p[i] = y2[i] + d;
        i += 1;
    }
    let mut icol: u8 = 0;
    while icol < 32 {
        assert_eq!(
            Bn254ComplexSubY3::calculate(icol, &y1p, &y2p, &y3, &q2),
            Bn254ComplexSubY3::calculate(icol, &y1, &y2, &y3, &q2)
        );
        icol += 1;
    }
}
