use desktop_organizer::single::{integer_root, round_root, round_signed, round_single, spacing_of};

#[test]
fn rounding_agrees_with_casts() {
    let mut v: u64 = 1;
    while v < 1 << 50 {
        for d in [0u64, 1, 3, 7] {
            assert_eq!(round_single((v + d) as u128, 1) as f64, (v + d) as f32 as f64);
        }
        v = v * 3 + 1;
    }
    assert_eq!(round_single(16777217, 1), 16777216);
    assert_eq!(round_single(16777219, 1), 16777220);
}

#[test]
fn quotients_agree_with_division() {
    let mut w: u32 = 1;
    while w < 3000 {
        let q: f32 = w as f32 / 260.0;
        assert_eq!(round_single(w as u128 * (1u128 << 40), 260) as f64, q as f64 * 1099511627776.0);
        w += 1;
    }
}

#[test]
fn negative_numbers_round_alike() {
    assert_eq!(round_signed(-16777217), -16777216);
    assert_eq!(round_signed(-5), -5);
    assert_eq!(round_signed(0), 0);
}

#[test]
fn roots_agree_with_square_roots() {
    let mut v: u32 = 0;
    while v < 5000 {
        let r: f32 = (v as f32).sqrt();
        assert_eq!(round_root(v as u128 * (1u128 << 48)) as f64, r as f64 * 16777216.0);
        v += 1;
    }
}

#[test]
fn integer_roots_are_floors() {
    assert_eq!(integer_root(0), 0);
    assert_eq!(integer_root(15), 3);
    assert_eq!(integer_root(16), 4);
    assert_eq!(integer_root(1 << 100), 1 << 50);
}

#[test]
fn spacing_doubles() {
    assert_eq!(spacing_of(0), 1);
    assert_eq!(spacing_of(16777215), 1);
    assert_eq!(spacing_of(16777216), 2);
    assert_eq!(spacing_of(33554432), 4);
}
