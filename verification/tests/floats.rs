use qortex::float::{double_from_single, single_from_double, single_from_half, single_from_i64};

/// A sequence that visits many bit patterns, the same on every run.
fn patterns(n: usize) -> Vec<u64> {
    let mut x: u64 = 0x9e37_79b9_7f4a_7c15;
    let mut all = Vec::new();
    for _ in 0..n {
        x ^= x << 13;
        x ^= x >> 7;
        x ^= x << 17;
        all.push(x);
    }
    all
}

#[test]
fn integers_round_to_the_nearest() {
    let mut all = vec![0, 1, -1, 2, 3, -7, i64::MAX, i64::MIN, i64::MIN + 1];
    for shift in 0..63 {
        for offset in -3i64..=3 {
            let x = (1i64 << shift).wrapping_add(offset);
            all.push(x);
            all.push(x.wrapping_neg());
        }
    }
    for p in patterns(20_000) {
        all.push(p as i64);
        all.push((p as i64) >> (p % 60));
    }
    for x in all {
        assert_eq!(single_from_i64(x), (x as f32).to_bits(), "{}", x);
    }
}

#[test]
fn ties_go_to_the_even_neighbour() {
    assert_eq!(single_from_i64(0x100_0000), 0x4b80_0000);
    assert_eq!(single_from_i64(0x100_0001), 0x4b80_0000);
    assert_eq!(single_from_i64(0x100_0002), 0x4b80_0001);
    assert_eq!(single_from_i64(0x100_0003), 0x4b80_0002);
    assert_eq!(single_from_i64(i64::MAX), 0x5f00_0000);
    assert_eq!(single_from_i64(-3), 0xc040_0000);
}

#[test]
fn doubles_round_to_the_nearest() {
    let mut all = Vec::new();
    for x in [
        0.0f64,
        -0.0,
        1.0,
        0.1,
        -0.95,
        1.0 / 3.0,
        f64::MAX,
        f64::MIN_POSITIVE,
        f64::INFINITY,
        f64::NEG_INFINITY,
        f32::MAX as f64,
        f32::MIN_POSITIVE as f64,
        3.4028235677973366e38,
        3.4028235677973362e38,
        7.006492321624085e-46,
        7.006492321624086e-46,
        7.0e-46,
        1.401298464324817e-45,
    ] {
        all.push(x.to_bits());
    }
    // Around the halfway points of single precision, over the whole of its range.
    for exponent in 850u64..1160 {
        for mantissa in [0u64, 1, 0xf_ffff_f000_0000, 0xf_ffff_ffff_ffff, 0x1000_0000, 0x3000_0000] {
            for offset in [0u64, 1, u64::MAX] {
                let m = mantissa.wrapping_add(offset) & 0xf_ffff_ffff_ffff;
                all.push((exponent << 52) | m);
                all.push((1 << 63) | (exponent << 52) | m);
            }
        }
    }
    for p in patterns(50_000) {
        all.push(p);
        // An exponent that single precision knows.
        all.push((p & !(0x7ff << 52)) | ((850 + p % 310) << 52));
    }
    for x in all {
        let native = f64::from_bits(x) as f32;
        if native.is_nan() {
            assert!(f32::from_bits(single_from_double(x)).is_nan());
        } else {
            assert_eq!(single_from_double(x), native.to_bits(), "{:x}", x);
        }
    }
}

#[test]
fn a_double_nan_stays_quiet_with_its_payload() {
    assert_eq!(single_from_double(0x7ff8_0000_0000_0000), 0x7fc0_0000);
    assert_eq!(single_from_double(0x7ff0_0000_2000_0000), 0x7fc0_0001);
    assert_eq!(single_from_double(0xfff0_0000_0000_0001), 0xffc0_0000);
}

#[test]
fn halves_convert_as_the_half_crate_does() {
    for bits in 0..=u16::MAX {
        assert_eq!(single_from_half(bits), half::f16::from_bits(bits).to_f32().to_bits());
    }
    assert_eq!(single_from_half(0x3c00), 1.0f32.to_bits());
    assert_eq!(single_from_half(0x0001), 0x3380_0000);
}

#[test]
fn singles_widen_exactly() {
    let mut all = vec![0u32, 1, 2, 0x7f_ffff, 0x80_0000, 0x7f7f_ffff, 0x7f80_0000, 0x3f80_0000];
    for p in patterns(50_000) {
        all.push(p as u32);
        all.push((p as u32) & 0x807f_ffff);
    }
    for x in all {
        for x in [x, x ^ 0x8000_0000] {
            let native = f32::from_bits(x) as f64;
            if native.is_nan() {
                assert!(f64::from_bits(double_from_single(x)).is_nan());
            } else {
                assert_eq!(double_from_single(x), native.to_bits(), "{:x}", x);
                assert_eq!(single_from_double(double_from_single(x)), x);
            }
        }
    }
    assert_eq!(double_from_single(0x7fc0_0001), 0x7ff8_0000_2000_0000);
}
