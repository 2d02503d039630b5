use bluebat::number::{negate, number_from, test_eq, test_le, test_lt, test_nan, to_count, to_index};

fn samples() -> Vec<f64> {
    vec![
        0.0,
        -0.0,
        1.0,
        -1.0,
        0.5,
        -0.5,
        1.5,
        2.0,
        3.999,
        -3.999,
        1e-310,
        -1e-310,
        4503599627370496.0,
        9007199254740993.0,
        1e19,
        1e300,
        -1e300,
        f64::MAX,
        f64::MIN,
        f64::MIN_POSITIVE,
        f64::INFINITY,
        f64::NEG_INFINITY,
        f64::NAN,
        -f64::NAN,
    ]
}

#[test]
fn comparisons_agree_with_the_hardware() {
    for a in samples() {
        for b in samples() {
            assert_eq!(test_eq(a.to_bits(), b.to_bits()), a == b, "{} == {}", a, b);
            assert_eq!(test_lt(a.to_bits(), b.to_bits()), a < b, "{} < {}", a, b);
            assert_eq!(test_le(a.to_bits(), b.to_bits()), a <= b, "{} <= {}", a, b);
        }
    }
}

#[test]
fn classification_and_negation_agree_with_the_hardware() {
    for a in samples() {
        assert_eq!(test_nan(a.to_bits()), a.is_nan());
        assert_eq!(negate(a.to_bits()), (-a).to_bits());
    }
}

#[test]
fn counts_agree_with_the_saturating_cast() {
    for a in samples() {
        assert_eq!(to_count(a.to_bits()), a as usize, "{}", a);
    }
    assert_eq!(to_count(2.9f64.to_bits()), 2);
    assert_eq!(to_count(1e19f64.to_bits()), 10000000000000000000);
    assert_eq!(to_count(1e30f64.to_bits()), usize::MAX);
}

#[test]
fn indices_agree_with_floor_and_bounds() {
    let lengths = [0usize, 1, 2, 5, 1000];
    for a in samples() {
        for len in lengths {
            let i = a.floor() as isize;
            let expected = if i >= len as isize || i < 0 { None } else { Some(i as usize) };
            assert_eq!(to_index(a.to_bits(), len), expected, "{} in {}", a, len);
        }
    }
    assert_eq!(to_index(4.0f64.to_bits(), 5), Some(4));
    assert_eq!(to_index(4.99f64.to_bits(), 5), Some(4));
    assert_eq!(to_index(5.0f64.to_bits(), 5), None);
    assert_eq!(to_index((-0.0f64).to_bits(), 1), Some(0));
    assert_eq!(to_index((-0.1f64).to_bits(), 1), None);
}

#[test]
fn integers_convert_as_the_hardware_converts() {
    let mut values: Vec<u64> = vec![
        0,
        1,
        2,
        3,
        10,
        255,
        4503599627370495,
        4503599627370496,
        9007199254740991,
        9007199254740992,
        9007199254740993,
        9007199254740994,
        9007199254740995,
        18014398509481985,
        u64::MAX,
        u64::MAX - 1,
        u64::MAX - 1023,
        u64::MAX - 1024,
        u64::MAX - 2048,
        1u64 << 63,
        (1u64 << 63) + 1024,
        (1u64 << 63) + 1025,
        (1u64 << 63) + 3072,
    ];
    let mut x: u64 = 0x9e3779b97f4a7c15;
    for _ in 0..2000 {
        x ^= x << 13;
        x ^= x >> 7;
        x ^= x << 17;
        values.push(x);
        values.push(x >> (x % 64));
    }
    for n in values {
        assert_eq!(number_from(n), (n as f64).to_bits(), "{}", n);
    }
}
