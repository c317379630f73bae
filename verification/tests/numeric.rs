use particle_arena::numeric::{floor_div, rounded_root};

#[test]
fn floor_div_rounds_down() {
    assert_eq!(floor_div(7, 2), 3);
    assert_eq!(floor_div(-7, 2), -4);
    assert_eq!(floor_div(7, -2), -4);
    assert_eq!(floor_div(-7, -2), 3);
    assert_eq!(floor_div(6, 3), 2);
    assert_eq!(floor_div(-6, 3), -2);
    assert_eq!(floor_div(6, -3), -2);
    assert_eq!(floor_div(0, 5), 0);
    assert_eq!(floor_div(0, -5), 0);
    assert_eq!(floor_div(-1, 1_000), -1);
    assert_eq!(floor_div(1, -1_000), -1);
    assert_eq!(floor_div(999, 1_000), 0);
}

#[test]
fn floor_div_at_the_limits() {
    let least: i128 = i128::MIN + 1;
    assert_eq!(floor_div(i128::MAX, 1), i128::MAX);
    assert_eq!(floor_div(least, 1), least);
    assert_eq!(floor_div(i128::MAX, -1), least);
    assert_eq!(floor_div(least, -1), i128::MAX);
    assert_eq!(floor_div(least, i128::MAX), -1);
    assert_eq!(floor_div(-1, i128::MAX), -1);
    assert_eq!(floor_div(1, i128::MAX), 0);
    assert_eq!(floor_div(1, least), -1);
    assert_eq!(floor_div(i128::MAX, 2), i128::MAX / 2);
    assert_eq!(floor_div(least, 2), -(i128::MAX / 2) - 1);
}

#[test]
fn rounded_root_of_small_numbers() {
    let expected: Vec<u128> = vec![0, 1, 1, 2, 2, 2, 2, 3, 3, 3, 3, 3, 3, 4];
    let mut n: u128 = 0;
    for want in expected.iter() {
        assert_eq!(rounded_root(n), *want, "root of {}", n);
        n += 1;
    }
}

#[test]
fn rounded_root_of_squares_and_their_neighbours() {
    let mut base: u128 = 1;
    while base < 0x1_0000_0000_0000_0000 {
        assert_eq!(rounded_root(base * base), base);
        assert_eq!(rounded_root(base * base + base), base);
        assert_eq!(rounded_root(base * base + base + 1), base + 1);
        assert_eq!(rounded_root(base * base - base + 1), base);
        base = base * 3 + 1;
    }
}

#[test]
fn rounded_root_of_the_largest_numbers() {
    assert_eq!(rounded_root(u128::MAX), 0x1_0000_0000_0000_0000);
    assert_eq!(rounded_root(u128::MAX - 0xFFFF_FFFF_FFFF_FFFE), 0x1_0000_0000_0000_0000);
    assert_eq!(rounded_root(u128::MAX - 0xFFFF_FFFF_FFFF_FFFF), 0xFFFF_FFFF_FFFF_FFFF);
    assert_eq!(rounded_root(0x3_FFFF_FFFF_FFFF_FFFF), 8_589_934_592);
}
