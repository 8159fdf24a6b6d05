use uffs_mft::platform::Lcn;

#[test]
fn raw_roundtrip_preserves_i64_exactly() {
    for raw in [i64::MIN, -1, 0, 1, 42, i64::MAX] {
        assert_eq!(Lcn::new(raw).raw(), raw, "round-trip drift for {raw}");
    }
}

#[test]
fn from_into_i64_symmetry() {
    let raw: i64 = 0x0123_4567_89AB_CDEF;
    let lcn: Lcn = raw.into();
    let back: i64 = lcn.into();
    assert_eq!(back, raw);
}

#[test]
fn zero_and_hole_sentinels_match_literal_values() {
    assert_eq!(Lcn::zero(), Lcn::new(0));
    assert_eq!(Lcn::hole(), Lcn::new(-1));
    assert!(Lcn::zero().is_zero());
    assert!(!Lcn::zero().is_hole());
    assert!(Lcn::hole().is_hole());
    assert!(!Lcn::hole().is_zero());
}

#[test]
fn is_hole_matches_any_negative_value() {
    assert!(Lcn::new(-1).is_hole());
    assert!(Lcn::new(-2).is_hole());
    assert!(Lcn::new(i64::MIN).is_hole());
    assert!(!Lcn::new(0).is_hole());
    assert!(!Lcn::new(1).is_hole());
    assert!(!Lcn::new(i64::MAX).is_hole());
}

#[test]
fn raw_unsigned_reinterprets_bit_pattern() {
    assert_eq!(Lcn::new(0).raw_unsigned(), 0_u64);
    assert_eq!(Lcn::new(1).raw_unsigned(), 1_u64);
    assert_eq!(Lcn::new(i64::MAX).raw_unsigned(), i64::MAX as u64);
    assert_eq!(Lcn::new(-1).raw_unsigned(), u64::MAX);
}

#[test]
fn display_matches_raw_i64() {
    for raw in [i64::MIN, -1, 0, 1, 1_234_567, i64::MAX] {
        assert_eq!(Lcn::new(raw).to_string(), raw.to_string());
    }
}

#[test]
fn ord_matches_underlying_i64_ordering() {
    assert!(Lcn::hole() < Lcn::zero());
    assert!(Lcn::zero() < Lcn::new(1));
    assert!(Lcn::new(1) < Lcn::new(2));
    assert!(Lcn::new(i64::MIN) < Lcn::hole());
    assert!(Lcn::zero() < Lcn::new(i64::MAX));
}
