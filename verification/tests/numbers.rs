use flv_patch::double::{ieee_double_bits, int_double_bits, ms_double_bits, push_be64};

#[test]
fn times_match_native_division() {
    for ms in [
        0u32,
        1,
        2,
        3,
        125,
        499,
        500,
        501,
        999,
        1000,
        1001,
        1500,
        60_000,
        123_456,
        86_400_000,
        0xFF_FFFF,
        u32::MAX,
    ] {
        let expected = ((ms as f64) / 1000.0f64).to_bits();
        assert_eq!(ms_double_bits(ms), expected, "ms = {}", ms);
    }
}

#[test]
fn positions_match_native_conversion() {
    for v in [
        0i64,
        1,
        -1,
        2,
        13,
        -56,
        200,
        556,
        1 << 20,
        (1 << 52) - 1,
        1 << 52,
        (1 << 53) - 1,
        1 << 53,
        (1 << 53) + 1,
        (1 << 53) + 3,
        i64::MAX,
        i64::MIN + 1,
    ] {
        let expected = (v as f64).to_bits();
        assert_eq!(int_double_bits(v), expected, "v = {}", v);
    }
}

#[test]
fn unsigned_fractions_round_to_nearest_even() {
    for (p, q) in [
        (1u64, 3u64),
        (2, 3),
        (1, 7),
        (10, 7),
        (999_999_999, 1000),
        (u64::MAX, 1),
        (u64::MAX - 1, 1),
    ] {
        let expected = ((p as f64) / (q as f64)).to_bits();
        assert_eq!(ieee_double_bits(false, p, q), expected, "{} / {}", p, q);
    }
}

#[test]
fn big_endian_bytes_are_exact() {
    let mut out = vec![0xAAu8];
    push_be64(&mut out, 0x0102_0304_0506_0708);
    assert_eq!(out, vec![0xAA, 1, 2, 3, 4, 5, 6, 7, 8]);
}
