use decimal96::decimal::{ConstructionError, Decimal};

#[test]
fn small_positive_at_low_precision() {
    let d = Decimal::new(1, 0, 0, 10).unwrap();
    assert!(!d.is_zero());
    assert!(d.is_positive());
    assert!(!d.is_negative());
    assert!(d.is_approx_zero());
    assert!(!d.is_approx_positive());
    assert!(!d.is_approx_negative());
}

#[test]
fn sign_bit_over_zero_magnitude() {
    let d = Decimal::new(2_147_483_648, 0, 0, 10).unwrap();
    assert!(!d.is_zero());
    assert!(!d.is_positive());
    assert!(d.is_negative());
    assert!(d.is_approx_zero());
    assert!(!d.is_approx_positive());
    assert!(!d.is_approx_negative());
}

#[test]
fn max_value_predicates() {
    let d = Decimal::max_value();
    assert_eq!(d.high(), 2_147_483_647);
    assert_eq!(d.med(), 4_294_967_295);
    assert_eq!(d.low(), 4_294_967_295);
    assert_eq!(d.prec(), 95);
    assert!(!d.is_zero());
    assert!(d.is_positive());
    assert!(!d.is_negative());
    assert!(!d.is_approx_zero());
    assert!(d.is_approx_positive());
    assert!(!d.is_approx_negative());
}

#[test]
fn min_value_predicates() {
    let d = Decimal::min_value();
    assert_eq!(d.high(), 4_294_967_295);
    assert_eq!(d.med(), 4_294_967_295);
    assert_eq!(d.low(), 4_294_967_295);
    assert_eq!(d.prec(), 95);
    assert!(!d.is_zero());
    assert!(!d.is_positive());
    assert!(d.is_negative());
    assert!(!d.is_approx_zero());
    assert!(!d.is_approx_positive());
    assert!(d.is_approx_negative());
}

#[test]
fn zero_predicates() {
    let d = Decimal::zero();
    assert_eq!(d.high(), 0);
    assert_eq!(d.med(), 0);
    assert_eq!(d.low(), 0);
    assert_eq!(d.prec(), 95);
    assert!(d.is_zero());
    assert!(!d.is_positive());
    assert!(!d.is_negative());
    assert!(d.is_approx_zero());
    assert!(!d.is_approx_positive());
    assert!(!d.is_approx_negative());
}

#[test]
fn all_zero_words_at_full_precision_match_zero() {
    let d = Decimal::new(0, 0, 0, 95).unwrap();
    let z = Decimal::zero();
    assert_eq!(d.is_zero(), z.is_zero());
    assert_eq!(d.is_positive(), z.is_positive());
    assert_eq!(d.is_negative(), z.is_negative());
    assert_eq!(d.is_approx_zero(), z.is_approx_zero());
    assert_eq!(d.is_approx_positive(), z.is_approx_positive());
    assert_eq!(d.is_approx_negative(), z.is_approx_negative());
    assert!(d.is_zero());
    assert!(!d.is_positive());
    assert!(!d.is_negative());
    assert!(d.is_approx_zero());
}

#[test]
fn new_accepts_every_precision_from_1_to_95() {
    for prec in 1u8..=95 {
        for &(h, m, l) in &[
            (0u32, 0u32, 0u32),
            (1, 2, 3),
            (u32::MAX, u32::MAX, u32::MAX),
            (0x8000_0000, 0, 0),
            (0x7fff_ffff, 0xdead_beef, 0x0bad_cafe),
        ] {
            let d = Decimal::new(h, m, l, prec).unwrap();
            assert_eq!(d.high(), h);
            assert_eq!(d.med(), m);
            assert_eq!(d.low(), l);
            assert_eq!(d.prec(), prec);
        }
    }
}

#[test]
fn new_rejects_precision_zero() {
    assert_eq!(Decimal::new(1, 0, 0, 0).unwrap_err(), ConstructionError::InvalidPrecision);
    assert_eq!(Decimal::new(0, 0, 0, 0).unwrap_err(), ConstructionError::InvalidPrecision);
}

#[test]
fn new_rejects_precision_above_95() {
    for prec in 96u8..=255 {
        assert_eq!(
            Decimal::new(1, 2, 3, prec).unwrap_err(),
            ConstructionError::InvalidPrecision
        );
    }
}

#[test]
fn new_keeps_the_sign_bit() {
    let d = Decimal::new(0xffff_ffff, 0, 0, 1).unwrap();
    assert_eq!(d.high(), 0xffff_ffff);
}
