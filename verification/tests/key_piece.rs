use gen_map::KeyPiece;

#[test]
fn wrapping_add_adds_and_wraps_like_the_integers() {
    assert_eq!(KeyPiece::wrapping_add(1u8, 2), 3);
    assert_eq!(KeyPiece::wrapping_add(u8::MAX, 1), 0);
    assert_eq!(KeyPiece::wrapping_add(u16::MAX, 2), 1);
    assert_eq!(KeyPiece::wrapping_add(u32::MAX - 1, 1), u32::MAX);
    assert_eq!(KeyPiece::wrapping_add(u64::MAX, 1), 0);
    assert_eq!(KeyPiece::wrapping_add(u128::MAX, 1), 0);
    assert_eq!(KeyPiece::wrapping_add(usize::MAX, 1), 0);
}

fn check_even<P: KeyPiece>(even: P) {
    assert!(!even.is_odd());
    assert_eq!(even.checked_add(P::ONE), Some(even.wrapping_add(P::ONE)));
}

#[test]
fn the_largest_value_is_odd_so_an_even_value_plus_one_fits() {
    check_even(0u8);
    check_even(254u8);
    check_even(u16::MAX - 1);
    check_even(u32::MAX - 1);
    check_even(u64::MAX - 1);
    check_even(u128::MAX - 1);
    check_even(usize::MAX - 1);
}

#[test]
fn into_usize_unchecked_agrees_with_into_usize() {
    for v in [0u8, 1, 200, u8::MAX] {
        assert_eq!(v.into_usize_unchecked(), v.into_usize().unwrap());
    }
    for v in [0u64, 1, 1 << 40, usize::MAX as u64] {
        assert_eq!(v.into_usize_unchecked(), v.into_usize().unwrap());
    }
    let v = usize::MAX as u128;
    assert_eq!(v.into_usize_unchecked(), usize::MAX);
}

#[test]
fn from_usize_unchecked_agrees_with_from_usize() {
    for v in [0usize, 1, 255] {
        assert_eq!(u8::from_usize_unchecked(v), u8::from_usize(v).unwrap());
    }
    for v in [0usize, 65_535, usize::MAX] {
        assert_eq!(u128::from_usize_unchecked(v), v as u128);
        assert_eq!(usize::from_usize_unchecked(v), v);
    }
}

fn check_round_trip<P: KeyPiece>(v: P) {
    let position = v.into_usize_unchecked();
    assert_eq!(P::from_usize_unchecked(position), v);
    assert_eq!(P::from_usize(position), Some(v));
}

#[test]
fn the_conversions_round_trip() {
    check_round_trip(0u8);
    check_round_trip(u8::MAX);
    check_round_trip(u16::MAX);
    check_round_trip(u32::MAX);
    check_round_trip(usize::MAX);
}
