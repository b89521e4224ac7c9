use lattice_pi::sqrt::integer_sqrt;

fn is_floor_root(value: u128, root: u64) -> bool {
    let r: u128 = root as u128;
    let below: bool = r * r <= value;
    let above: bool = match (r + 1).checked_mul(r + 1) {
        Some(next) => value < next,
        None => true,
    };
    below && above
}

#[test]
fn sqrt_of_zero_and_one() {
    assert_eq!(integer_sqrt(0), 0);
    assert_eq!(integer_sqrt(1), 1);
}

#[test]
fn sqrt_of_small_values() {
    let expected: [u64; 17] = [0, 1, 1, 1, 2, 2, 2, 2, 2, 3, 3, 3, 3, 3, 3, 3, 4];
    let mut value: usize = 0;
    while value < expected.len() {
        assert_eq!(integer_sqrt(value as u128), expected[value]);
        value += 1;
    }
}

#[test]
fn sqrt_brackets_every_value_up_to_fifty_thousand() {
    let mut value: u128 = 0;
    while value <= 50_000 {
        assert!(is_floor_root(value, integer_sqrt(value)));
        value += 1;
    }
}

#[test]
fn sqrt_of_perfect_squares_is_exact() {
    let mut k: u128 = 0;
    while k <= 20_000 {
        assert_eq!(integer_sqrt(k * k), k as u64);
        k += 1;
    }
    let large: [u128; 6] = [
        94_906_265,
        4_294_967_295,
        4_294_967_296,
        9_007_199_254_740_993,
        10_000_000_000,
        18_446_744_073_709_551_615,
    ];
    for k in large {
        assert_eq!(integer_sqrt(k * k), k as u64);
    }
}

#[test]
fn sqrt_just_below_and_above_perfect_squares() {
    let roots: [u128; 5] = [
        2,
        1_000,
        4_294_967_296,
        9_007_199_254_740_993,
        18_446_744_073_709_551_615,
    ];
    for k in roots {
        assert_eq!(integer_sqrt(k * k - 1), (k - 1) as u64);
        if let Some(above) = (k * k).checked_add(1) {
            assert_eq!(integer_sqrt(above), k as u64);
        }
    }
}

#[test]
fn sqrt_around_ten_to_the_eighteen() {
    let base: u128 = 1_000_000_000_000_000_000;
    assert_eq!(integer_sqrt(base), 1_000_000_000);
    assert_eq!(integer_sqrt(base - 1), 999_999_999);
    assert_eq!(integer_sqrt(base + 1), 1_000_000_000);
    let mut delta: u128 = 0;
    while delta <= 1_000 {
        assert!(is_floor_root(base - delta, integer_sqrt(base - delta)));
        assert!(is_floor_root(base + delta, integer_sqrt(base + delta)));
        delta += 1;
    }
}

#[test]
fn sqrt_around_the_limit_of_exact_doubles() {
    let limit: u128 = 9_007_199_254_740_992;
    assert_eq!(integer_sqrt(limit - 1), 94_906_265);
    assert_eq!(integer_sqrt(limit), 94_906_265);
    assert_eq!(integer_sqrt(limit + 1), 94_906_265);
    assert_eq!(
        integer_sqrt(81_129_638_414_606_699_710_187_514_626_048),
        9_007_199_254_740_992
    );
    assert_eq!(
        integer_sqrt(81_129_638_414_606_699_710_187_514_626_049),
        9_007_199_254_740_993
    );
}

#[test]
fn sqrt_of_the_largest_radius_squares() {
    assert_eq!(integer_sqrt(100_000_000_000_000_000_000), 10_000_000_000);
    assert_eq!(integer_sqrt(99_999_999_999_999_999_999), 9_999_999_999);
}

#[test]
fn sqrt_of_the_largest_value() {
    assert_eq!(integer_sqrt(u128::MAX), u64::MAX);
    assert_eq!(integer_sqrt(18_446_744_073_709_551_616), 4_294_967_296);
    assert_eq!(integer_sqrt(18_446_744_073_709_551_615), 4_294_967_295);
    assert_eq!(
        integer_sqrt(340_282_366_920_938_463_426_481_119_284_349_108_224),
        18_446_744_073_709_551_614
    );
}

#[test]
fn sqrt_is_not_the_identity() {
    assert_ne!(integer_sqrt(9) as u128, 9);
    assert_eq!(integer_sqrt(9), 3);
}
